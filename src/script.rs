//! What a script hands back, as plain values, and how it becomes a decision
//! or an error.
use vstd::prelude::*;
use crate::error::ExecutionError;

verus! {

/// One value a script returned, as far as the engine reads it.
pub enum ScriptValue {
    Bool(bool),
    Str(String),
    /// Any value that is neither a boolean nor a string.
    Other,
}

/// Why loading or calling a script failed, by the interpreter's account.
pub enum ScriptFailure {
    /// The source does not parse or compile.
    Syntax(String),
    /// A value could not be converted to the type asked for.
    Conversion(String),
    /// The script raised, ran out of memory or exhausted its step budget.
    Raised(String),
}

/// The values are exactly a boolean followed by a string.
pub open spec fn is_decision(values: Seq<ScriptValue>) -> bool {
    values.len() == 2 && values[0] is Bool && values[1] is Str
}

/// The decision a script's return values make: an action and new storage
/// when they are exactly a boolean and a string, else a `DeserializationError`.
pub fn decode_returned(values: Vec<ScriptValue>) -> (r: Result<(bool, String), ExecutionError>)
    ensures
        is_decision(values@) ==> r is Ok && r->Ok_0.0 == values@[0]->Bool_0 && r->Ok_0.1 == values@[1]->Str_0,
        !is_decision(values@) ==> r is Err && r->Err_0 is DeserializationError,
{
    let mut values = values;
    if values.len() != 2 {
        return Err(ExecutionError::DeserializationError("expected an action and a storage string".to_string()));
    }
    let second = values.pop();
    let first = values.pop();
    match (first, second) {
        (Some(ScriptValue::Bool(action)), Some(ScriptValue::Str(storage))) => Ok((action, storage)),
        (Some(ScriptValue::Bool(_)), _) => Err(ExecutionError::DeserializationError("the storage is not a string".to_string())),
        _ => Err(ExecutionError::DeserializationError("the action is not a boolean".to_string())),
    }
}

/// The error for a program that could not be loaded: one that does not
/// compile is a `SyntaxError`, one whose entry point has the wrong type an
/// `InitializationError`, one that raised while it ran a `RuntimeError`.
pub fn load_error(failure: ScriptFailure) -> (r: ExecutionError)
    ensures
        failure is Syntax ==> r is SyntaxError,
        failure is Conversion ==> r == ExecutionError::InitializationError(failure->Conversion_0),
        failure is Raised ==> r == ExecutionError::RuntimeError(failure->Raised_0),
{
    match failure {
        ScriptFailure::Syntax(_) => ExecutionError::SyntaxError,
        ScriptFailure::Conversion(message) => ExecutionError::InitializationError(message),
        ScriptFailure::Raised(message) => ExecutionError::RuntimeError(message),
    }
}

/// The error for a call of the entry point that failed: a result that
/// could not be converted is a `DeserializationError`, anything else a
/// `RuntimeError`.
pub fn call_error(failure: ScriptFailure) -> (r: ExecutionError)
    ensures
        failure is Conversion ==> r == ExecutionError::DeserializationError(failure->Conversion_0),
        failure is Raised ==> r == ExecutionError::RuntimeError(failure->Raised_0),
        failure is Syntax ==> r == ExecutionError::RuntimeError(failure->Syntax_0),
{
    match failure {
        ScriptFailure::Conversion(message) => ExecutionError::DeserializationError(message),
        ScriptFailure::Raised(message) => ExecutionError::RuntimeError(message),
        ScriptFailure::Syntax(message) => ExecutionError::RuntimeError(message),
    }
}

} // verus!
