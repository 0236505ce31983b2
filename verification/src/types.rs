//! Data holders for DFA definition and execution results.

use vstd::prelude::*;

use crate::model::{MachineView, StepView};

verus! {

/// The raw material for constructing a DFA: the five components (Q, Σ, δ,
/// q₀, F) exactly as supplied by the caller. No invariant needs to hold
/// here; every structural property is checked at construction of the
/// automaton. The transition table is an association list from state to an
/// inner association list from symbol to target state.
#[derive(Debug, Clone)]
pub struct Config {
    /// Q: the states, as a list of identifiers.
    pub states: Vec<String>,
    /// Σ: the input alphabet.
    pub alphabet: Vec<char>,
    /// δ: per-state transition entries, state → (symbol → target state).
    pub transitions: Vec<(String, Vec<(char, String)>)>,
    /// q₀: the start state.
    pub start_state: String,
    /// F: the accepting states.
    pub accepting_states: Vec<String>,
}

impl View for Config {
    type V = MachineView;

    open spec fn view(&self) -> MachineView {
        MachineView {
            states: self.states.deep_view(),
            alphabet: self.alphabet.view(),
            transitions: self.transitions.deep_view(),
            start_state: self.start_state.view(),
            accepting_states: self.accepting_states.deep_view(),
        }
    }
}

/// A single transition taken during a run: `from_state` on `symbol` moved to
/// `to_state`.
#[derive(Debug, Clone, PartialEq, Eq)]
pub struct ExecutionStep {
    pub from_state: String,
    pub to_state: String,
    pub symbol: char,
}

impl View for ExecutionStep {
    type V = StepView;

    open spec fn view(&self) -> StepView {
        StepView {
            from_state: self.from_state.view(),
            symbol: self.symbol,
            to_state: self.to_state.view(),
        }
    }
}

impl DeepView for ExecutionStep {
    type V = StepView;

    open spec fn deep_view(&self) -> StepView {
        self.view()
    }
}

/// The full record of one traced run: the input, the start state, every
/// transition taken in traversal order, the state held when the walk
/// stopped, and whether the input was accepted.
#[derive(Debug, Clone, PartialEq, Eq)]
pub struct ExecutionTrace {
    pub input: String,
    pub start_state: String,
    pub steps: Vec<ExecutionStep>,
    pub final_state: String,
    pub result: bool,
}

} // verus!
