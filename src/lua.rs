//! The Luau backend: a fresh sandboxed state for every call.
use vstd::prelude::*;
use crate::error::ExecutionError;
use crate::script::{call_error, decode_returned, load_error, ScriptFailure, ScriptValue};
use mlua::LuaSerdeExt;

verus! {

#[verifier::external_type_specification]
#[verifier::external_body]
pub struct ExLua(mlua::Lua);

#[verifier::external_type_specification]
#[verifier::external_body]
pub struct ExLuaFunction(mlua::Function);

#[verifier::external_type_specification]
#[verifier::external_body]
pub struct ExLuaValue(mlua::Value);

#[verifier::external_type_specification]
#[verifier::external_body]
pub struct ExLuaError(mlua::Error);

/// The memory ceiling of every Luau state, in bytes.
pub const LUA_MEMORY_LIMIT: usize = 1073741824;

/// Relies on `mlua::Lua::new`: a new Luau state with the safe standard libraries.
#[verifier::external_body]
fn lua_new() -> (r: mlua::Lua) {
    mlua::Lua::new()
}

/// Relies on `mlua::Lua::sandbox`: turns Luau's sandbox mode on.
#[verifier::external_body]
fn lua_sandbox(lua: &mlua::Lua) -> (r: Result<(), mlua::Error>) {
    lua.sandbox(true)
}

/// Relies on `mlua::Lua::set_memory_limit`: allocations past `limit` bytes fail.
#[verifier::external_body]
fn lua_set_memory_limit(lua: &mlua::Lua, limit: usize) -> (r: Result<usize, mlua::Error>) {
    lua.set_memory_limit(limit)
}

/// The number of interrupts (taken at calls and backward jumps) a Luau call
/// may reach before it is stopped.
pub const LUA_STEP_BUDGET: u64 = 10000000;

/// One more step of a budget of `limit`: the new count, or `None` once
/// the budget is spent.
pub fn spend_step(used: u64, limit: u64) -> (r: Option<u64>)
    ensures
        used < limit ==> r == Some((used + 1) as u64),
        used >= limit ==> r is None,
{
    if used < limit {
        Some(used + 1)
    } else {
        None
    }
}

/// Relies on `mlua::Lua::set_interrupt`: Luau calls the callback at calls and
/// backward jumps; it counts them with `spend_step` and raises once `limit`
/// is spent, so every later load or call returns.
#[verifier::external_body]
fn lua_set_step_budget(lua: &mlua::Lua, limit: u64) {
    let used = std::cell::Cell::new(0u64);
    lua.set_interrupt(move |_| match spend_step(used.get(), limit) {
        Some(count) => {
            used.set(count);
            Ok(mlua::VmState::Continue)
        },
        None => Err(mlua::Error::runtime("step budget exhausted")),
    });
}

/// Relies on `mlua::Lua::load` and `mlua::Chunk::eval`: compiles and runs the
/// chunk and converts its value to a function.
#[verifier::external_body]
fn lua_eval_function(lua: &mlua::Lua, program: &str) -> (r: Result<mlua::Function, mlua::Error>) {
    lua.load(program).eval::<mlua::Function>()
}

/// Relies on `mlua::LuaSerdeExt::to_value`: the history as a Lua array of
/// two-element boolean arrays.
#[verifier::external_body]
fn lua_history(lua: &mlua::Lua, history: &[(bool, bool)]) -> (r: Result<mlua::Value, mlua::Error>) {
    lua.to_value(history)
}

/// Relies on `mlua::Function::call`: calls the function and hands back all
/// of its results, unconverted.
#[verifier::external_body]
fn lua_call(function: &mlua::Function, history: mlua::Value, storage: String) -> (r: Result<Vec<mlua::Value>, mlua::Error>) {
    function.call::<mlua::MultiValue>((history, storage)).map(|values| values.into_vec())
}

/// Relies on `mlua::Value`'s variants and `mlua::String::to_str`: a boolean,
/// a UTF-8 string, or anything else.
#[verifier::external_body]
fn lua_value(value: mlua::Value) -> (r: ScriptValue) {
    match value {
        mlua::Value::Boolean(b) => ScriptValue::Bool(b),
        mlua::Value::String(s) => match s.to_str() {
            Ok(text) => ScriptValue::Str(text.to_string()),
            Err(_) => ScriptValue::Other,
        },
        _ => ScriptValue::Other,
    }
}

/// Relies on `mlua::Error`'s variants and its `Display`: a syntax error, a
/// failed conversion, or anything else, with the error's message.
#[verifier::external_body]
fn lua_failure(error: &mlua::Error) -> (r: ScriptFailure) {
    match error {
        mlua::Error::SyntaxError { message, .. } => ScriptFailure::Syntax(message.clone()),
        mlua::Error::FromLuaConversionError { .. } => ScriptFailure::Conversion(error.to_string()),
        _ => ScriptFailure::Raised(error.to_string()),
    }
}

/// Runs a Luau program in a new sandboxed state with a memory ceiling and a
/// step budget. Failing to set the state up is an `InitializationError`;
/// loading the program fails as `load_error` says, calling it as
/// `call_error` says, and its results are read by `decode_returned`.
pub fn run_lua(program: &str, history: &[(bool, bool)], storage: String) -> (r: Result<(bool, String), ExecutionError>)
    ensures
        !(r is Err && r->Err_0 is NotImplemented),
{
    let lua = lua_new();
    if lua_sandbox(&lua).is_err() {
        return Err(ExecutionError::InitializationError("sandboxing failed".to_string()));
    }
    if lua_set_memory_limit(&lua, LUA_MEMORY_LIMIT).is_err() {
        return Err(ExecutionError::InitializationError("setting the memory limit failed".to_string()));
    }
    lua_set_step_budget(&lua, LUA_STEP_BUDGET);
    let function = match lua_eval_function(&lua, program) {
        Ok(function) => function,
        Err(error) => {
            return Err(load_error(lua_failure(&error)));
        },
    };
    let history_value = match lua_history(&lua, history) {
        Ok(value) => value,
        Err(_) => {
            return Err(ExecutionError::InitializationError("the history could not be converted".to_string()));
        },
    };
    let raw = match lua_call(&function, history_value, storage) {
        Ok(raw) => raw,
        Err(error) => {
            return Err(call_error(lua_failure(&error)));
        },
    };
    let mut values: Vec<ScriptValue> = Vec::new();
    let mut raw = raw;
    while raw.len() > 0
        decreases raw@.len(),
    {
        let value = raw.remove(0);
        values.push(lua_value(value));
    }
    decode_returned(values)
}

} // verus!
