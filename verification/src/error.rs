//! The closed taxonomy of configuration defects.

use vstd::prelude::*;

use crate::model::{
    accepting_states_ok, delta, delta_total, row_lookup, rows_complete, start_state_ok,
    MachineView,
};

verus! {

/// The defect found in a configuration, one variant per category. Exactly
/// one is reported: the first failing check in the fixed order start state,
/// accepting states, per-state rows, per-symbol totality, target closure.
#[derive(Debug, Clone, PartialEq, Eq)]
pub enum ValidationError {
    /// q₀ is not a member of Q.
    InvalidStartState(String),
    /// Some state of F is not a member of Q.
    InvalidAcceptingState(String),
    /// Some defined transition leads outside Q.
    InvalidTransitionTarget { from: String, symbol: char, to: String },
    /// Some state of Q lacks a transition for some symbol of Σ.
    MissingTransition { state: String, symbol: char },
    /// Some state of Q has no transition-table row at all.
    MissingStateTransitions(String),
}

/// What a reported error certifies about the configuration it was reported
/// for: the carried data witnesses the defect of its own category, and no
/// earlier category in the fixed validation order has a defect anywhere.
pub open spec fn error_explained(m: MachineView, e: ValidationError) -> bool {
    match e {
        ValidationError::InvalidStartState(s) => {
            &&& s@ == m.start_state
            &&& !m.states.contains(s@)
        },
        ValidationError::InvalidAcceptingState(s) => {
            &&& start_state_ok(m)
            &&& m.accepting_states.contains(s@)
            &&& !m.states.contains(s@)
        },
        ValidationError::MissingStateTransitions(s) => {
            &&& start_state_ok(m)
            &&& accepting_states_ok(m)
            &&& m.states.contains(s@)
            &&& row_lookup(m.transitions, s@) is None
        },
        ValidationError::MissingTransition { state, symbol } => {
            &&& start_state_ok(m)
            &&& accepting_states_ok(m)
            &&& rows_complete(m)
            &&& m.states.contains(state@)
            &&& m.alphabet.contains(symbol)
            &&& delta(m, state@, symbol) is None
        },
        ValidationError::InvalidTransitionTarget { from, symbol, to } => {
            &&& start_state_ok(m)
            &&& accepting_states_ok(m)
            &&& rows_complete(m)
            &&& delta_total(m)
            &&& m.states.contains(from@)
            &&& m.alphabet.contains(symbol)
            &&& delta(m, from@, symbol) == Some(to@)
            &&& !m.states.contains(to@)
        },
    }
}

} // verus!
