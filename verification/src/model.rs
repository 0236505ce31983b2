//! Mathematical model of a deterministic finite automaton.
//!
//! `MachineView` is the abstraction of both a raw configuration and a
//! constructed automaton: state identifiers are character sequences, the
//! transition table is an association list from state to an inner
//! association list from symbol to target state (the first matching entry
//! wins, as in the executable lookup). The validity predicates and the
//! acceptance/trace semantics below are the reference meaning against which
//! the executable engine is verified.

use vstd::prelude::*;

verus! {

/// One row of the transition table: a source state paired with the
/// symbol-to-target entries defined for it.
pub type RowView = (Seq<char>, Seq<(char, Seq<char>)>);

/// Abstract value of a DFA definition: (Q, Σ, δ, q₀, F), with δ kept as the
/// supplied association structure so that partiality is representable.
pub ghost struct MachineView {
    pub states: Seq<Seq<char>>,
    pub alphabet: Seq<char>,
    pub transitions: Seq<RowView>,
    pub start_state: Seq<char>,
    pub accepting_states: Seq<Seq<char>>,
}

/// Abstract value of one executed transition.
pub ghost struct StepView {
    pub from_state: Seq<char>,
    pub symbol: char,
    pub to_state: Seq<char>,
}

/// First entry defined for `symbol`, if any.
pub open spec fn entry_lookup(entries: Seq<(char, Seq<char>)>, symbol: char) -> Option<Seq<char>>
    decreases entries.len(),
{
    if entries.len() == 0 {
        None
    } else if entries[0].0 == symbol {
        Some(entries[0].1)
    } else {
        entry_lookup(entries.drop_first(), symbol)
    }
}

/// First row defined for `state`, if any.
pub open spec fn row_lookup(rows: Seq<RowView>, state: Seq<char>) -> Option<Seq<(char, Seq<char>)>>
    decreases rows.len(),
{
    if rows.len() == 0 {
        None
    } else if rows[0].0 == state {
        Some(rows[0].1)
    } else {
        row_lookup(rows.drop_first(), state)
    }
}

/// δ as a partial function: the target defined for (state, symbol), if any.
pub open spec fn delta(m: MachineView, state: Seq<char>, symbol: char) -> Option<Seq<char>> {
    match row_lookup(m.transitions, state) {
        Some(entries) => entry_lookup(entries, symbol),
        None => None,
    }
}

/// q₀ ∈ Q.
pub open spec fn start_state_ok(m: MachineView) -> bool {
    m.states.contains(m.start_state)
}

/// F ⊆ Q.
pub open spec fn accepting_states_ok(m: MachineView) -> bool {
    forall|i: int| 0 <= i < m.accepting_states.len() ==> m.states.contains(
        #[trigger] m.accepting_states[i],
    )
}

/// Every state of Q has a transition-table row of its own.
pub open spec fn rows_complete(m: MachineView) -> bool {
    forall|q: Seq<char>| #[trigger] m.states.contains(q) ==> row_lookup(m.transitions, q) is Some
}

/// δ is total over Q × Σ.
pub open spec fn delta_total(m: MachineView) -> bool {
    forall|q: Seq<char>, a: char|
        m.states.contains(q) && m.alphabet.contains(a) ==> (#[trigger] delta(m, q, a)) is Some
}

/// Every target defined over Q × Σ lies in Q itself.
pub open spec fn delta_closed(m: MachineView) -> bool {
    forall|q: Seq<char>, a: char|
        m.states.contains(q) && m.alphabet.contains(a) && (#[trigger] delta(m, q, a)) is Some
            ==> m.states.contains(delta(m, q, a)->Some_0)
}

/// A structurally sound DFA definition: all five checks hold.
pub open spec fn machine_valid(m: MachineView) -> bool {
    &&& start_state_ok(m)
    &&& accepting_states_ok(m)
    &&& rows_complete(m)
    &&& delta_total(m)
    &&& delta_closed(m)
}

/// Acceptance of `input` when the walk starts at `q`: consume each symbol in
/// order, rejecting on a symbol outside Σ or an undefined transition; after
/// full consumption, accept exactly when the state reached is in F.
pub open spec fn run_from(m: MachineView, q: Seq<char>, input: Seq<char>) -> bool
    decreases input.len(),
{
    if input.len() == 0 {
        m.accepting_states.contains(q)
    } else if !m.alphabet.contains(input[0]) {
        false
    } else {
        match delta(m, q, input[0]) {
            Some(t) => run_from(m, t, input.drop_first()),
            None => false,
        }
    }
}

/// Acceptance of `input` from the start state.
pub open spec fn accepts(m: MachineView, input: Seq<char>) -> bool {
    run_from(m, m.start_state, input)
}

/// The transitions actually taken on `input` from `q`, in traversal order;
/// the walk stops before a symbol outside Σ or an undefined transition.
pub open spec fn steps_from(m: MachineView, q: Seq<char>, input: Seq<char>) -> Seq<StepView>
    decreases input.len(),
{
    if input.len() == 0 || !m.alphabet.contains(input[0]) {
        Seq::empty()
    } else {
        match delta(m, q, input[0]) {
            Some(t) => seq![step_of(q, input[0], t)] + steps_from(m, t, input.drop_first()),
            None => Seq::empty(),
        }
    }
}

/// The record of one transition: `from` moved to `to` on `symbol`.
pub open spec fn step_of(from: Seq<char>, symbol: char, to: Seq<char>) -> StepView {
    StepView { from_state: from, symbol, to_state: to }
}

/// The state held when the walk on `input` from `q` stops: the last state
/// reached on full consumption, or the state held just before the symbol on
/// which the walk rejects.
pub open spec fn final_state_from(m: MachineView, q: Seq<char>, input: Seq<char>) -> Seq<char>
    decreases input.len(),
{
    if input.len() == 0 || !m.alphabet.contains(input[0]) {
        q
    } else {
        match delta(m, q, input[0]) {
            Some(t) => final_state_from(m, t, input.drop_first()),
            None => q,
        }
    }
}

/// Empty-input law: the empty input is accepted exactly when the start
/// state is itself accepting.
pub proof fn lemma_empty_input(m: MachineView)
    ensures
        accepts(m, Seq::<char>::empty()) <==> m.accepting_states.contains(m.start_state),
{
}

/// Any walk rejects an input holding a symbol outside Σ, wherever that
/// symbol stands and whatever the machine looks like.
pub proof fn lemma_foreign_symbol_rejects_from(m: MachineView, q: Seq<char>, input: Seq<char>)
    requires
        exists|i: int| 0 <= i < input.len() && !m.alphabet.contains(#[trigger] input[i]),
    ensures
        !run_from(m, q, input),
    decreases input.len(),
{
    let i = choose|i: int| 0 <= i < input.len() && !m.alphabet.contains(#[trigger] input[i]);
    if m.alphabet.contains(input[0]) {
        match delta(m, q, input[0]) {
            Some(t) => {
                assert(input.drop_first()[i - 1] == input[i]);
                lemma_foreign_symbol_rejects_from(m, t, input.drop_first());
            },
            None => {},
        }
    }
}

/// Alphabet-guard law, acceptance half: an input with a symbol outside Σ is
/// never accepted.
pub proof fn lemma_foreign_symbol_rejects(m: MachineView, input: Seq<char>)
    requires
        exists|i: int| 0 <= i < input.len() && !m.alphabet.contains(#[trigger] input[i]),
    ensures
        !accepts(m, input),
{
    lemma_foreign_symbol_rejects_from(m, m.start_state, input);
}

/// Unrolling a walk by one consumed symbol: when the first symbol is in Σ
/// and δ is defined for it, the walk takes that transition and continues
/// from its target over the rest of the input.
pub proof fn lemma_walk_step(m: MachineView, q: Seq<char>, input: Seq<char>)
    requires
        input.len() > 0,
        m.alphabet.contains(input[0]),
        delta(m, q, input[0]) is Some,
    ensures
        steps_from(m, q, input) == seq![
            StepView { from_state: q, symbol: input[0], to_state: delta(m, q, input[0])->Some_0 },
        ] + steps_from(m, delta(m, q, input[0])->Some_0, input.drop_first()),
        final_state_from(m, q, input) == final_state_from(
            m,
            delta(m, q, input[0])->Some_0,
            input.drop_first(),
        ),
        run_from(m, q, input) == run_from(m, delta(m, q, input[0])->Some_0, input.drop_first()),
{
}

/// A walk that cannot take a first transition — empty input, a first symbol
/// outside Σ, or an undefined δ — records no step and stays where it is.
pub proof fn lemma_walk_halt(m: MachineView, q: Seq<char>, input: Seq<char>)
    requires
        input.len() == 0 || !m.alphabet.contains(input[0]) || delta(m, q, input[0]) is None,
    ensures
        steps_from(m, q, input) == Seq::<StepView>::empty(),
        final_state_from(m, q, input) == q,
        run_from(m, q, input) == (input.len() == 0 && m.accepting_states.contains(q)),
{
}

/// Trace-length law: on a valid machine, a walk from a state of Q over an
/// input lying wholly in Σ consumes every symbol — one step per symbol, in
/// order — ends in a state of Q, and accepts exactly when that state is in
/// F.
pub proof fn lemma_full_walk(m: MachineView, q: Seq<char>, input: Seq<char>)
    requires
        machine_valid(m),
        m.states.contains(q),
        forall|i: int| 0 <= i < input.len() ==> m.alphabet.contains(#[trigger] input[i]),
    ensures
        steps_from(m, q, input).len() == input.len(),
        forall|i: int|
            0 <= i < input.len() ==> (#[trigger] steps_from(m, q, input)[i]).symbol == input[i],
        m.states.contains(final_state_from(m, q, input)),
        run_from(m, q, input) <==> m.accepting_states.contains(final_state_from(m, q, input)),
    decreases input.len(),
{
    if input.len() == 0 {
        lemma_walk_halt(m, q, input);
    } else {
        let a = input[0];
        assert(m.alphabet.contains(a));
        assert(delta(m, q, a) is Some);
        let t = delta(m, q, a)->Some_0;
        assert(m.states.contains(t));
        lemma_walk_step(m, q, input);
        lemma_full_walk(m, t, input.drop_first());
        let rest = steps_from(m, t, input.drop_first());
        let s = steps_from(m, q, input);
        let sv = StepView { from_state: q, symbol: a, to_state: t };
        assert(s == seq![sv] + rest);
        assert forall|i: int| 0 <= i < input.len() implies (#[trigger] s[i]).symbol
            == input[i] by {
            if i > 0 {
                assert(s[i] == rest[i - 1]);
                assert(input.drop_first()[i - 1] == input[i]);
            }
        };
    }
}

/// What it means for a step sequence to record a coherent walk of machine
/// `m` from state `q` ending at state `last`: the first step leaves `q`,
/// each step leaves the state the previous one reached, each step follows
/// δ, and the last step reaches `last` (with `last == q` for a stepless
/// walk).
pub open spec fn chained_steps(
    m: MachineView,
    q: Seq<char>,
    steps: Seq<StepView>,
    last: Seq<char>,
) -> bool {
    &&& steps.len() == 0 ==> last == q
    &&& steps.len() > 0 ==> steps.first().from_state == q && steps.last().to_state == last
    &&& forall|i: int, j: int|
        0 <= i && j == i + 1 && j < steps.len() ==> (#[trigger] steps[i]).to_state == (
        #[trigger] steps[j]).from_state
    &&& forall|i: int|
        0 <= i < steps.len() ==> delta(m, (#[trigger] steps[i]).from_state, steps[i].symbol)
            == Some(steps[i].to_state)
}
} // verus!
