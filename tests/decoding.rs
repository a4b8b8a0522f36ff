use ipdt::error::ExecutionError;
use ipdt::lua::spend_step;
use ipdt::python::{decode_tuple, entry_point_error};
use ipdt::script::{call_error, decode_returned, load_error, ScriptFailure, ScriptValue};

#[test]
fn decode_boolean_and_string() {
    let r = decode_returned(vec![ScriptValue::Bool(true), ScriptValue::Str("x".to_string())]);
    assert_eq!(r, Ok((true, "x".to_string())));
}

#[test]
fn decode_rejects_other_shapes() {
    let cases = vec![
        vec![],
        vec![ScriptValue::Bool(true)],
        vec![ScriptValue::Str("x".to_string()), ScriptValue::Bool(true)],
        vec![ScriptValue::Bool(true), ScriptValue::Other],
        vec![ScriptValue::Other, ScriptValue::Str("x".to_string())],
        vec![ScriptValue::Bool(true), ScriptValue::Str("x".to_string()), ScriptValue::Other],
    ];
    for values in cases {
        assert!(matches!(decode_returned(values), Err(ExecutionError::DeserializationError(_))));
    }
}

#[test]
fn load_errors_by_kind() {
    assert_eq!(load_error(ScriptFailure::Syntax("s".to_string())), ExecutionError::SyntaxError);
    assert_eq!(load_error(ScriptFailure::Conversion("c".to_string())), ExecutionError::InitializationError("c".to_string()));
    assert_eq!(load_error(ScriptFailure::Raised("r".to_string())), ExecutionError::RuntimeError("r".to_string()));
}

#[test]
fn call_errors_by_kind() {
    assert_eq!(call_error(ScriptFailure::Conversion("c".to_string())), ExecutionError::DeserializationError("c".to_string()));
    assert_eq!(call_error(ScriptFailure::Raised("r".to_string())), ExecutionError::RuntimeError("r".to_string()));
    assert_eq!(call_error(ScriptFailure::Syntax("s".to_string())), ExecutionError::RuntimeError("s".to_string()));
}

#[test]
fn step_budget_counts_to_its_limit() {
    assert_eq!(spend_step(0, 2), Some(1));
    assert_eq!(spend_step(1, 2), Some(2));
    assert_eq!(spend_step(2, 2), None);
    assert_eq!(spend_step(0, 0), None);
}

#[test]
fn entry_point_errors() {
    assert_eq!(entry_point_error(true, true), None);
    assert!(matches!(entry_point_error(false, false), Some(ExecutionError::InitializationError(_))));
    assert!(matches!(entry_point_error(true, false), Some(ExecutionError::InitializationError(_))));
}

#[test]
fn decode_tuple_cases() {
    assert!(matches!(decode_tuple(None), Err(ExecutionError::DeserializationError(_))));
    assert_eq!(
        decode_tuple(Some(vec![ScriptValue::Bool(false), ScriptValue::Str("s".to_string())])),
        Ok((false, "s".to_string()))
    );
    assert!(matches!(decode_tuple(Some(vec![ScriptValue::Bool(false)])), Err(ExecutionError::DeserializationError(_))));
}
