use dfa_engine::{Config, ValidationError, DFA};

fn transitions(data: &[(&str, &[(char, &str)])]) -> Vec<(String, Vec<(char, String)>)> {
    data.iter()
        .map(|(state, trans)| {
            let inner: Vec<(char, String)> = trans
                .iter()
                .map(|(symbol, target)| (*symbol, (*target).to_string()))
                .collect();
            ((*state).to_string(), inner)
        })
        .collect()
}

fn mod_two_dfa() -> DFA {
    DFA::new(Config {
        states: vec!["q0".into(), "q1".into()],
        alphabet: vec!['0', '1'],
        transitions: transitions(&[
            ("q0", &[('0', "q1"), ('1', "q0")]),
            ("q1", &[('0', "q1"), ('1', "q0")]),
        ]),
        start_state: "q0".into(),
        accepting_states: vec!["q1".into()],
    })
    .unwrap()
}

#[test]
fn run_is_repeatable() {
    let dfa = mod_two_dfa();
    let first = dfa.run("1010");
    let second = dfa.run("1010");
    let third = dfa.run("1010");
    assert!(first);
    assert_eq!(first, second);
    assert_eq!(second, third);
}

#[test]
fn empty_input_accepted_when_start_state_accepting() {
    let dfa = DFA::new(Config {
        states: vec!["q0".into(), "q1".into()],
        alphabet: vec!['0', '1'],
        transitions: transitions(&[
            ("q0", &[('0', "q1"), ('1', "q0")]),
            ("q1", &[('0', "q1"), ('1', "q0")]),
        ]),
        start_state: "q0".into(),
        accepting_states: vec!["q0".into()],
    })
    .unwrap();
    assert!(dfa.run(""));

    let trace = dfa.run_with_trace("");
    assert!(trace.result);
    assert_eq!(trace.final_state, "q0");
    assert!(trace.steps.is_empty());
}

#[test]
fn trace_stops_before_foreign_symbol() {
    let trace = mod_two_dfa().run_with_trace("102");

    assert!(!trace.result);
    // '1' and '0' are consumed; '2' is not in the alphabet and adds no step.
    assert_eq!(trace.steps.len(), 2);
    assert_eq!(trace.final_state, "q1");
    assert_eq!(trace.steps[1].to_state, "q1");
}

#[test]
fn trace_steps_chain_on_full_input() {
    let input = "1010";
    let trace = mod_two_dfa().run_with_trace(input);

    assert!(trace.result);
    assert_eq!(trace.steps.len(), input.len());
    assert_eq!(trace.steps[0].from_state, trace.start_state);
    for i in 0..trace.steps.len() - 1 {
        assert_eq!(trace.steps[i].to_state, trace.steps[i + 1].from_state);
    }
    assert_eq!(trace.steps[trace.steps.len() - 1].to_state, trace.final_state);
    for (i, symbol) in input.chars().enumerate() {
        assert_eq!(trace.steps[i].symbol, symbol);
    }
}

#[test]
fn trace_for_single_zero() {
    let trace = mod_two_dfa().run_with_trace("0");

    assert!(trace.result);
    assert_eq!(trace.steps.len(), 1);
    assert_eq!(trace.steps[0].from_state, "q0");
    assert_eq!(trace.steps[0].symbol, '0');
    assert_eq!(trace.steps[0].to_state, "q1");
    assert_eq!(trace.final_state, "q1");
}

#[test]
fn duplicate_states_are_harmless() {
    let dfa = DFA::new(Config {
        states: vec!["q0".into(), "q0".into(), "q1".into()],
        alphabet: vec!['0', '1'],
        transitions: transitions(&[
            ("q0", &[('0', "q1"), ('1', "q0")]),
            ("q1", &[('0', "q1"), ('1', "q0")]),
        ]),
        start_state: "q0".into(),
        accepting_states: vec!["q1".into()],
    })
    .unwrap();
    assert!(dfa.run("0"));
}

#[test]
fn first_matching_transition_row_wins() {
    let dfa = DFA::new(Config {
        states: vec!["q0".into(), "q1".into()],
        alphabet: vec!['0', '1'],
        transitions: transitions(&[
            ("q0", &[('0', "q1"), ('1', "q0")]),
            ("q0", &[('0', "q0"), ('1', "q0")]),
            ("q1", &[('0', "q1"), ('1', "q0")]),
        ]),
        start_state: "q0".into(),
        accepting_states: vec!["q1".into()],
    })
    .unwrap();
    // The first row for q0 sends '0' to q1, which accepts.
    assert!(dfa.run("0"));
}

#[test]
fn invalid_start_state_reports_the_state() {
    let result = DFA::new(Config {
        states: vec![],
        alphabet: vec!['0'],
        transitions: vec![],
        start_state: "q9".into(),
        accepting_states: vec![],
    });
    match result {
        Err(ValidationError::InvalidStartState(state)) => assert_eq!(state, "q9"),
        _ => panic!("expected an invalid start state"),
    }
}

#[test]
fn missing_transition_reports_state_and_symbol() {
    let result = DFA::new(Config {
        states: vec!["q0".into()],
        alphabet: vec!['0', '1'],
        transitions: transitions(&[("q0", &[('0', "q0")])]),
        start_state: "q0".into(),
        accepting_states: vec![],
    });
    match result {
        Err(ValidationError::MissingTransition { state, symbol }) => {
            assert_eq!(state, "q0");
            assert_eq!(symbol, '1');
        },
        _ => panic!("expected a missing transition"),
    }
}

#[test]
fn invalid_target_reports_the_whole_transition() {
    let result = DFA::new(Config {
        states: vec!["q0".into()],
        alphabet: vec!['0'],
        transitions: transitions(&[("q0", &[('0', "q9")])]),
        start_state: "q0".into(),
        accepting_states: vec![],
    });
    match result {
        Err(ValidationError::InvalidTransitionTarget { from, symbol, to }) => {
            assert_eq!(from, "q0");
            assert_eq!(symbol, '0');
            assert_eq!(to, "q9");
        },
        _ => panic!("expected an invalid transition target"),
    }
}

#[test]
fn empty_alphabet_rejects_every_nonempty_input() {
    let dfa = DFA::new(Config {
        states: vec!["q0".into()],
        alphabet: vec![],
        transitions: transitions(&[("q0", &[])]),
        start_state: "q0".into(),
        accepting_states: vec!["q0".into()],
    })
    .unwrap();
    assert!(dfa.run(""));
    assert!(!dfa.run("a"));
}
