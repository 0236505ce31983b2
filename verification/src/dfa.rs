//! The validated automaton and its construction and execution.

use vstd::prelude::*;

use crate::error::{error_explained, ValidationError};
use crate::model::{
    accepting_states_ok, accepts, delta, delta_closed, delta_total, entry_lookup,
    final_state_from, machine_valid, row_lookup, rows_complete, run_from, start_state_ok,
    steps_from, MachineView, StepView,
};
use crate::types::{Config, ExecutionStep, ExecutionTrace};

verus! {

/// An immutable DFA whose abstraction (`self@`) is guaranteed structurally
/// valid: δ total over Q × Σ and closed into Q, q₀ ∈ Q, F ⊆ Q. Built only
/// through [`DFA::new`]; never mutated afterwards.
#[derive(Debug, Clone)]
pub struct DFA {
    states: Vec<String>,
    alphabet: Vec<char>,
    transitions: Vec<(String, Vec<(char, String)>)>,
    start_state: String,
    accepting_states: Vec<String>,
}

impl View for DFA {
    type V = MachineView;

    closed spec fn view(&self) -> MachineView {
        MachineView {
            states: self.states.deep_view(),
            alphabet: self.alphabet.view(),
            transitions: self.transitions.deep_view(),
            start_state: self.start_state.view(),
            accepting_states: self.accepting_states.deep_view(),
        }
    }
}

/// Whether `target` occurs in `ids`, compared by contents.
fn contains_id(ids: &Vec<String>, target: &String) -> (r: bool)
    ensures
        r == ids.deep_view().contains(target@),
{
    let mut i: usize = 0;
    while i < ids.len()
        invariant
            i <= ids.len(),
            forall|j: int| 0 <= j < i ==> ids.deep_view()[j] != target@,
        decreases ids.len() - i,
    {
        if ids[i] == *target {
            assert(ids.deep_view()[i as int] == target@);
            return true;
        }
        i += 1;
    }
    false
}

/// Whether `symbol` occurs in `alphabet`.
fn contains_symbol(alphabet: &Vec<char>, symbol: char) -> (r: bool)
    ensures
        r == alphabet@.contains(symbol),
{
    let mut i: usize = 0;
    while i < alphabet.len()
        invariant
            i <= alphabet.len(),
            forall|j: int| 0 <= j < i ==> alphabet@[j] != symbol,
        decreases alphabet.len() - i,
    {
        if alphabet[i] == symbol {
            return true;
        }
        i += 1;
    }
    false
}

/// The first transition-table row for `state`, if any.
fn find_row<'a>(rows: &'a Vec<(String, Vec<(char, String)>)>, state: &String) -> (r: Option<
    &'a Vec<(char, String)>,
>)
    ensures
        match r {
            Some(entries) => row_lookup(rows.deep_view(), state@) == Some(entries.deep_view()),
            None => row_lookup(rows.deep_view(), state@) is None,
        },
{
    let ghost rv = rows.deep_view();
    proof {
        assert(rv.skip(0) =~= rv);
    }
    let mut i: usize = 0;
    while i < rows.len()
        invariant
            i <= rows.len(),
            rv == rows.deep_view(),
            row_lookup(rv, state@) == row_lookup(rv.skip(i as int), state@),
        decreases rows.len() - i,
    {
        proof {
            assert(rv.skip(i as int)[0] == rv[i as int]);
        }
        if rows[i].0 == *state {
            return Some(&rows[i].1);
        }
        proof {
            assert(rv.skip(i as int).drop_first() =~= rv.skip(i as int + 1));
        }
        i += 1;
    }
    proof {
        assert(rv.skip(i as int).len() == 0);
    }
    None
}

/// The first target defined for `symbol` among `entries`, if any.
fn find_entry<'a>(entries: &'a Vec<(char, String)>, symbol: char) -> (r: Option<&'a String>)
    ensures
        match r {
            Some(target) => entry_lookup(entries.deep_view(), symbol) == Some(target@),
            None => entry_lookup(entries.deep_view(), symbol) is None,
        },
{
    let ghost ev = entries.deep_view();
    proof {
        assert(ev.skip(0) =~= ev);
    }
    let mut i: usize = 0;
    while i < entries.len()
        invariant
            i <= entries.len(),
            ev == entries.deep_view(),
            entry_lookup(ev, symbol) == entry_lookup(ev.skip(i as int), symbol),
        decreases entries.len() - i,
    {
        proof {
            assert(ev.skip(i as int)[0] == ev[i as int]);
        }
        if entries[i].0 == symbol {
            return Some(&entries[i].1);
        }
        proof {
            assert(ev.skip(i as int).drop_first() =~= ev.skip(i as int + 1));
        }
        i += 1;
    }
    proof {
        assert(ev.skip(i as int).len() == 0);
    }
    None
}

impl DFA {
    /// First validation pass: q₀ ∈ Q.
    fn check_start(&self) -> (r: Result<(), ValidationError>)
        ensures
            r is Ok <==> start_state_ok(self@),
            r is Err ==> error_explained(self@, r->Err_0),
    {
        if contains_id(&self.states, &self.start_state) {
            Ok(())
        } else {
            Err(ValidationError::InvalidStartState(self.start_state.clone()))
        }
    }

    /// Second validation pass: F ⊆ Q.
    #[verifier::loop_isolation(false)]
    fn check_accepting(&self) -> (r: Result<(), ValidationError>)
        requires
            start_state_ok(self@),
        ensures
            r is Ok <==> accepting_states_ok(self@),
            r is Err ==> error_explained(self@, r->Err_0),
    {
        let ghost m = self@;
        let mut i: usize = 0;
        while i < self.accepting_states.len()
            invariant
                i <= self.accepting_states.len(),
                forall|j: int| 0 <= j < i ==> m.states.contains(#[trigger] m.accepting_states[j]),
            decreases self.accepting_states.len() - i,
        {
            if !contains_id(&self.states, &self.accepting_states[i]) {
                proof {
                    assert(m.accepting_states[i as int] == self.accepting_states@[i as int]@);
                }
                return Err(
                    ValidationError::InvalidAcceptingState(self.accepting_states[i].clone()),
                );
            }
            i += 1;
        }
        Ok(())
    }

    /// Third validation pass: every state of Q has a transition-table row.
    #[verifier::loop_isolation(false)]
    fn check_rows(&self) -> (r: Result<(), ValidationError>)
        requires
            start_state_ok(self@),
            accepting_states_ok(self@),
        ensures
            r is Ok <==> rows_complete(self@),
            r is Err ==> error_explained(self@, r->Err_0),
    {
        let ghost m = self@;
        let mut i: usize = 0;
        while i < self.states.len()
            invariant
                i <= self.states.len(),
                forall|j: int|
                    0 <= j < i ==> row_lookup(m.transitions, #[trigger] m.states[j]) is Some,
            decreases self.states.len() - i,
        {
            proof {
                assert(m.states[i as int] == self.states@[i as int]@);
                assert(m.states.contains(m.states[i as int]));
            }
            if find_row(&self.transitions, &self.states[i]).is_none() {
                return Err(ValidationError::MissingStateTransitions(self.states[i].clone()));
            }
            i += 1;
        }
        proof {
            assert forall|q: Seq<char>| #[trigger]
                m.states.contains(q) implies row_lookup(m.transitions, q) is Some by {
                let j = choose|j: int| 0 <= j < m.states.len() && m.states[j] == q;
                assert(row_lookup(m.transitions, m.states[j]) is Some);
            };
        }
        Ok(())
    }

    /// Fourth validation pass: δ defined for every pair of Q × Σ.
    #[verifier::loop_isolation(false)]
    fn check_totality(&self) -> (r: Result<(), ValidationError>)
        requires
            start_state_ok(self@),
            accepting_states_ok(self@),
            rows_complete(self@),
        ensures
            r is Ok <==> delta_total(self@),
            r is Err ==> error_explained(self@, r->Err_0),
    {
        let ghost m = self@;
        let mut i: usize = 0;
        while i < self.states.len()
            invariant
                i <= self.states.len(),
                forall|j: int, t: int|
                    0 <= j < i && 0 <= t < m.alphabet.len() ==> #[trigger] delta(
                        m,
                        m.states[j],
                        m.alphabet[t],
                    ) is Some,
            decreases self.states.len() - i,
        {
            proof {
                assert(m.states[i as int] == self.states@[i as int]@);
                assert(m.states.contains(m.states[i as int]));
            }
            let entries = match find_row(&self.transitions, &self.states[i]) {
                Some(e) => e,
                None => {
                    proof {
                        assert(false);
                    }
                    unreached()
                },
            };
            let mut k: usize = 0;
            while k < self.alphabet.len()
                invariant
                    k <= self.alphabet.len(),
                    forall|t: int|
                        0 <= t < k ==> #[trigger] delta(m, m.states[i as int], m.alphabet[t])
                            is Some,
                decreases self.alphabet.len() - k,
            {
                if find_entry(entries, self.alphabet[k]).is_none() {
                    proof {
                        assert(m.alphabet.contains(m.alphabet[k as int]));
                        assert(delta(m, m.states[i as int], m.alphabet[k as int]) is None);
                    }
                    return Err(
                        ValidationError::MissingTransition {
                            state: self.states[i].clone(),
                            symbol: self.alphabet[k],
                        },
                    );
                }
                k += 1;
            }
            i += 1;
        }
        proof {
            assert forall|q: Seq<char>, a: char|
                m.states.contains(q) && m.alphabet.contains(a) implies delta(m, q, a)
                is Some by {
                let j = choose|j: int| 0 <= j < m.states.len() && m.states[j] == q;
                let t = choose|t: int| 0 <= t < m.alphabet.len() && m.alphabet[t] == a;
                assert(delta(m, m.states[j], m.alphabet[t]) is Some);
            };
        }
        Ok(())
    }

    /// Fifth validation pass: every defined target over Q × Σ lies in Q.
    #[verifier::loop_isolation(false)]
    fn check_closure(&self) -> (r: Result<(), ValidationError>)
        requires
            start_state_ok(self@),
            accepting_states_ok(self@),
            rows_complete(self@),
            delta_total(self@),
        ensures
            r is Ok <==> delta_closed(self@),
            r is Err ==> error_explained(self@, r->Err_0),
    {
        let ghost m = self@;
        let mut i: usize = 0;
        while i < self.states.len()
            invariant
                i <= self.states.len(),
                forall|j: int, t: int|
                    0 <= j < i && 0 <= t < m.alphabet.len() ==> m.states.contains(
                        (#[trigger] delta(m, m.states[j], m.alphabet[t]))->Some_0,
                    ),
            decreases self.states.len() - i,
        {
            proof {
                assert(m.states[i as int] == self.states@[i as int]@);
                assert(m.states.contains(m.states[i as int]));
            }
            let entries = match find_row(&self.transitions, &self.states[i]) {
                Some(e) => e,
                None => {
                    proof {
                        assert(false);
                    }
                    unreached()
                },
            };
            let mut k: usize = 0;
            while k < self.alphabet.len()
                invariant
                    k <= self.alphabet.len(),
                    forall|t: int|
                        0 <= t < k ==> m.states.contains(
                            (#[trigger] delta(m, m.states[i as int], m.alphabet[t]))->Some_0,
                        ),
                decreases self.alphabet.len() - k,
            {
                proof {
                    assert(m.alphabet.contains(m.alphabet[k as int]));
                }
                let target = match find_entry(entries, self.alphabet[k]) {
                    Some(t) => t,
                    None => {
                        proof {
                            assert(delta(m, m.states[i as int], m.alphabet[k as int]) is Some);
                            assert(false);
                        }
                        unreached()
                    },
                };
                proof {
                    assert(delta(m, m.states[i as int], m.alphabet[k as int]) == Some(target@));
                }
                if !contains_id(&self.states, target) {
                    return Err(
                        ValidationError::InvalidTransitionTarget {
                            from: self.states[i].clone(),
                            symbol: self.alphabet[k],
                            to: target.clone(),
                        },
                    );
                }
                k += 1;
            }
            i += 1;
        }
        proof {
            assert forall|q: Seq<char>, a: char|
                m.states.contains(q) && m.alphabet.contains(a) && delta(m, q, a)
                    is Some implies m.states.contains(delta(m, q, a)->Some_0) by {
                let j = choose|j: int| 0 <= j < m.states.len() && m.states[j] == q;
                let t = choose|t: int| 0 <= t < m.alphabet.len() && m.alphabet[t] == a;
                assert(m.states.contains(delta(m, m.states[j], m.alphabet[t])->Some_0));
            };
        }
        Ok(())
    }

    /// Run the five validation passes in their fixed order; the first
    /// failing one yields the error.
    fn validate(&self) -> (r: Result<(), ValidationError>)
        ensures
            r is Ok <==> machine_valid(self@),
            r is Err ==> error_explained(self@, r->Err_0),
    {
        match self.check_start() {
            Err(e) => return Err(e),
            Ok(()) => {},
        }
        match self.check_accepting() {
            Err(e) => return Err(e),
            Ok(()) => {},
        }
        match self.check_rows() {
            Err(e) => return Err(e),
            Ok(()) => {},
        }
        match self.check_totality() {
            Err(e) => return Err(e),
            Ok(()) => {},
        }
        match self.check_closure() {
            Err(e) => return Err(e),
            Ok(()) => {},
        }
        Ok(())
    }

    /// Validate `config` and, on success, seal it into a runnable automaton.
    ///
    /// Succeeds exactly when the configuration is structurally sound: q₀ ∈
    /// Q, F ⊆ Q, and δ total over Q × Σ with every target in Q. Otherwise
    /// the first-failing check (in that fixed order) is reported, carrying
    /// the offending element.
    pub fn new(config: Config) -> (r: Result<DFA, ValidationError>)
        ensures
            r is Ok <==> machine_valid(config@),
            r is Ok ==> r->Ok_0@ == config@,
            r is Err ==> error_explained(config@, r->Err_0),
    {
        let dfa = DFA {
            states: config.states,
            alphabet: config.alphabet,
            transitions: config.transitions,
            start_state: config.start_state,
            accepting_states: config.accepting_states,
        };
        match dfa.validate() {
            Ok(()) => Ok(dfa),
            Err(e) => Err(e),
        }
    }

    /// Whether the automaton accepts `input`: starting at q₀ and following
    /// δ symbol by symbol, the input is fully consumed (every symbol in Σ,
    /// every transition defined) and the state reached lies in F.
    ///
    /// A pure function of the automaton and the input: the result equals
    /// the acceptance relation of the abstract machine.
    #[verifier::loop_isolation(false)]
    pub fn run(&self, input: &str) -> (r: bool)
        ensures
            r == accepts(self@, input@),
    {
        let ghost m = self@;
        let n = input.unicode_len();
        let mut current: &String = &self.start_state;
        let mut i: usize = 0;
        proof {
            assert(input@.skip(0) =~= input@);
        }
        while i < n
            invariant
                i <= n,
                accepts(m, input@) == run_from(m, current@, input@.skip(i as int)),
            decreases n - i,
        {
            let c = input.get_char(i);
            proof {
                assert(input@.skip(i as int)[0] == input@[i as int]);
            }
            if !contains_symbol(&self.alphabet, c) {
                return false;
            }
            let entries = match find_row(&self.transitions, current) {
                Some(e) => e,
                None => {
                    return false;
                },
            };
            let target = match find_entry(entries, c) {
                Some(t) => t,
                None => {
                    return false;
                },
            };
            proof {
                assert(input@.skip(i as int).drop_first() =~= input@.skip(i as int + 1));
            }
            current = target;
            i += 1;
        }
        contains_id(&self.accepting_states, current)
    }

    /// The same walk as [`DFA::run`], recording each transition taken. On a
    /// symbol outside Σ (or an undefined transition) the walk stops: the
    /// steps recorded so far, the state held at that moment, and a negative
    /// result make up the trace; the offending symbol produces no step.
    #[verifier::loop_isolation(false)]
    pub fn run_with_trace(&self, input: &str) -> (trace: ExecutionTrace)
        ensures
            trace.input@ == input@,
            trace.start_state@ == self@.start_state,
            trace.result == accepts(self@, input@),
            trace.final_state@ == final_state_from(self@, self@.start_state, input@),
            trace.steps.deep_view() == steps_from(self@, self@.start_state, input@),
    {
        let ghost m = self@;
        let n = input.unicode_len();
        let mut steps: Vec<ExecutionStep> = Vec::new();
        let mut current: &String = &self.start_state;
        let mut i: usize = 0;
        proof {
            assert(input@.skip(0) =~= input@);
            assert(steps.deep_view() =~= Seq::<StepView>::empty());
            assert(steps.deep_view() + steps_from(m, current@, input@) =~= steps_from(
                m,
                current@,
                input@,
            ));
        }
        while i < n
            invariant
                i <= n,
                accepts(m, input@) == run_from(m, current@, input@.skip(i as int)),
                final_state_from(m, m.start_state, input@) == final_state_from(
                    m,
                    current@,
                    input@.skip(i as int),
                ),
                steps_from(m, m.start_state, input@) == steps.deep_view() + steps_from(
                    m,
                    current@,
                    input@.skip(i as int),
                ),
            decreases n - i,
        {
            let c = input.get_char(i);
            proof {
                assert(input@.skip(i as int)[0] == input@[i as int]);
            }
            let next = if !contains_symbol(&self.alphabet, c) {
                None
            } else {
                match find_row(&self.transitions, current) {
                    Some(entries) => find_entry(entries, c),
                    None => None,
                }
            };
            let target = match next {
                Some(t) => t,
                None => {
                    proof {
                        assert(steps_from(m, current@, input@.skip(i as int))
                            =~= Seq::<StepView>::empty());
                        assert(steps.deep_view() + Seq::<StepView>::empty() =~= steps.deep_view());
                    }
                    return ExecutionTrace {
                        input: input.to_owned(),
                        start_state: self.start_state.clone(),
                        steps,
                        final_state: current.clone(),
                        result: false,
                    };
                },
            };
            let ghost pre = steps.deep_view();
            let step = ExecutionStep {
                from_state: current.clone(),
                to_state: target.clone(),
                symbol: c,
            };
            steps.push(step);
            proof {
                let sv = StepView { from_state: current@, symbol: c, to_state: target@ };
                assert(steps.deep_view() =~= pre.push(sv));
                assert(input@.skip(i as int).drop_first() =~= input@.skip(i as int + 1));
                assert(steps_from(m, current@, input@.skip(i as int)) == seq![sv] + steps_from(
                    m,
                    target@,
                    input@.skip(i as int + 1),
                ));
                assert(pre + (seq![sv] + steps_from(m, target@, input@.skip(i as int + 1)))
                    =~= pre.push(sv) + steps_from(m, target@, input@.skip(i as int + 1)));
            }
            current = target;
            i += 1;
        }
        let accepted = contains_id(&self.accepting_states, current);
        proof {
            assert(steps_from(m, current@, input@.skip(n as int)) =~= Seq::<StepView>::empty());
            assert(steps.deep_view() + Seq::<StepView>::empty() =~= steps.deep_view());
        }
        ExecutionTrace {
            input: input.to_owned(),
            start_state: self.start_state.clone(),
            steps,
            final_state: current.clone(),
            result: accepted,
        }
    }
}

} // verus!
