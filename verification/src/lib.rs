//! A deterministic finite automaton (DFA) engine.
//!
//! A configuration describing the five DFA components (Q, Σ, δ, q₀, F) is
//! validated for totality and closure of the transition function; on success
//! an immutable, runnable automaton is produced, with boolean acceptance and
//! step-by-step tracing entry points.

pub mod dfa;
pub mod error;
pub mod model;
pub mod types;

pub use dfa::DFA;
pub use error::ValidationError;
pub use types::{Config, ExecutionStep, ExecutionTrace};
