use vstd::prelude::*;

verus! {

/// Why a script could not produce a decision.
#[derive(Debug, Clone, PartialEq, Eq)]
pub enum ExecutionError {
    /// The program does not parse or compile.
    SyntaxError,
    /// The script raised while it ran.
    RuntimeError(String),
    /// The script's result is not a `(bool, string)` pair.
    DeserializationError(String),
    /// The sandbox could not be set up, or the entry point is missing or not callable.
    InitializationError(String),
    /// The backend is reserved and has no interpreter yet.
    NotImplemented(String),
}

} // verus!
