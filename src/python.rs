//! The Python backend: one interpreter, kept and reused, into which the
//! program is run again before every call.
use vstd::prelude::*;
use crate::error::ExecutionError;
use crate::script::{call_error, decode_returned, is_decision, load_error, ScriptFailure, ScriptValue};
use rustpython_vm::AsObject;

verus! {

#[verifier::external_type_specification]
#[verifier::external_body]
pub struct ExInterpreter(rustpython_vm::Interpreter);

#[verifier::external_type_specification]
#[verifier::external_body]
pub struct ExVirtualMachine(rustpython_vm::VirtualMachine);

#[verifier::external_type_specification]
#[verifier::external_body]
pub struct ExScope(rustpython_vm::scope::Scope);

#[verifier::external_type_specification]
#[verifier::external_body]
pub struct ExPyObjectRef(rustpython_vm::PyObjectRef);

/// Relies on `rustpython::InterpreterConfig::interpreter`: a new interpreter
/// with default settings.
#[verifier::external_body]
pub(crate) fn python_interpreter() -> (r: rustpython_vm::Interpreter) {
    rustpython::InterpreterConfig::new().settings(rustpython_vm::Settings::default()).interpreter()
}

/// Relies on `rustpython_vm::Interpreter::enter`: runs `run_python` on the
/// interpreter's machine and hands back what it returned.
#[verifier::external_body]
pub(crate) fn python_enter(
    interpreter: &rustpython_vm::Interpreter,
    program: &str,
    history: &[(bool, bool)],
    storage: String,
) -> (r: Result<(bool, String), ExecutionError>)
    ensures
        !(r is Err && r->Err_0 is NotImplemented),
{
    interpreter.enter(|vm| run_python(vm, program, history, storage))
}

/// Relies on `rustpython_vm::VirtualMachine::new_scope_with_builtins`: an
/// empty global scope that sees the builtins.
#[verifier::external_body]
fn py_new_scope(vm: &rustpython_vm::VirtualMachine) -> (r: rustpython_vm::scope::Scope) {
    vm.new_scope_with_builtins()
}

/// Relies on `rustpython_vm::VirtualMachine::run_block_expr`: compiles and
/// runs the source in the scope; the error is the exception raised. The
/// interpreter checks for pending signals between instructions, so once
/// `run_python` has armed its `SIGALRM` time budget a source that runs past
/// it raises `TimeoutError` here and the call returns.
#[verifier::external_body]
fn py_run_block(
    vm: &rustpython_vm::VirtualMachine,
    scope: &rustpython_vm::scope::Scope,
    source: &str,
) -> (r: Result<rustpython_vm::PyObjectRef, rustpython_vm::PyObjectRef>) {
    vm.run_block_expr(scope.clone(), source).map_err(|e| e.into())
}

/// Relies on `rustpython_vm::builtins::PyDict::get_item`: the global named
/// `name`; the error is the exception raised.
#[verifier::external_body]
fn py_global(
    vm: &rustpython_vm::VirtualMachine,
    scope: &rustpython_vm::scope::Scope,
    name: &str,
) -> (r: Result<rustpython_vm::PyObjectRef, rustpython_vm::PyObjectRef>) {
    scope.globals.get_item(name, vm).map_err(|e| e.into())
}

/// Relies on `rustpython_vm::Context::new_bool`: a Python `bool`.
#[verifier::external_body]
fn py_bool(vm: &rustpython_vm::VirtualMachine, value: bool) -> (r: rustpython_vm::PyObjectRef) {
    vm.ctx.new_bool(value).into()
}

/// Relies on `rustpython_vm::Context::new_tuple`: a Python `tuple` of the items.
#[verifier::external_body]
fn py_tuple(vm: &rustpython_vm::VirtualMachine, items: Vec<rustpython_vm::PyObjectRef>) -> (r: rustpython_vm::PyObjectRef) {
    vm.ctx.new_tuple(items).into()
}

/// Relies on `rustpython_vm::Context::new_list`: a Python `list` of the items.
#[verifier::external_body]
fn py_list(vm: &rustpython_vm::VirtualMachine, items: Vec<rustpython_vm::PyObjectRef>) -> (r: rustpython_vm::PyObjectRef) {
    vm.ctx.new_list(items).into()
}

/// Relies on `rustpython_vm::Context::new_str`: a Python `str`.
#[verifier::external_body]
fn py_str(vm: &rustpython_vm::VirtualMachine, value: String) -> (r: rustpython_vm::PyObjectRef) {
    vm.ctx.new_str(value).into()
}

/// Relies on `rustpython_vm::PyObject::is_callable`.
#[verifier::external_body]
fn py_is_callable(object: &rustpython_vm::PyObjectRef) -> (r: bool) {
    object.is_callable()
}

/// Relies on `rustpython_vm::PyObject::call`: calls the object with the
/// arguments; the error is the exception raised. Under the time budget that
/// `run_python` arms, a call that runs past it raises and returns, as for
/// `py_run_block`.
#[verifier::external_body]
fn py_call(
    vm: &rustpython_vm::VirtualMachine,
    callable: &rustpython_vm::PyObjectRef,
    args: Vec<rustpython_vm::PyObjectRef>,
) -> (r: Result<rustpython_vm::PyObjectRef, rustpython_vm::PyObjectRef>) {
    callable.call(rustpython_vm::function::FuncArgs::from(args), vm).map_err(|e| e.into())
}

/// Relies on `rustpython_vm::PyObjectRef::downcast` to `PyTuple`: the items
/// of a tuple; the error hands back an object that is no tuple.
#[verifier::external_body]
fn py_tuple_items(object: rustpython_vm::PyObjectRef) -> (r: Result<Vec<rustpython_vm::PyObjectRef>, rustpython_vm::PyObjectRef>) {
    object.downcast::<rustpython_vm::builtins::PyTuple>().map(|t| t.as_slice().to_vec())
}

/// Relies on the interpreter's `True`/`False` singletons and
/// `rustpython_vm::PyObject::downcast_ref` to `PyStr`: a Python `bool`, a
/// `str`, or anything else.
#[verifier::external_body]
fn py_value(vm: &rustpython_vm::VirtualMachine, object: &rustpython_vm::PyObjectRef) -> (r: ScriptValue) {
    if object.is(&vm.ctx.true_value) {
        ScriptValue::Bool(true)
    } else if object.is(&vm.ctx.false_value) {
        ScriptValue::Bool(false)
    } else {
        match object.downcast_ref::<rustpython_vm::builtins::PyStr>() {
            Some(text) => ScriptValue::Str(text.as_str().to_owned()),
            None => ScriptValue::Other,
        }
    }
}

/// Relies on `rustpython_vm::AsObject::fast_isinstance` and the exception's
/// class name: a `SyntaxError`, or anything else raised.
#[verifier::external_body]
fn py_failure(vm: &rustpython_vm::VirtualMachine, exception: &rustpython_vm::PyObjectRef) -> (r: ScriptFailure) {
    if exception.fast_isinstance(vm.ctx.exceptions.syntax_error) {
        ScriptFailure::Syntax(exception.class().name().to_string())
    } else {
        ScriptFailure::Raised(exception.class().name().to_string())
    }
}

/// Arms the time budget of five seconds for a program and its `main`
/// together: `SIGALRM` (signal 14) then raises `TimeoutError` in whatever
/// Python code is running. The alarm belongs to the process, so one budget
/// is armed at a time.
pub const PYTHON_ARM_BUDGET: &'static str = "import _signal\ndef _budget_spent(signum, frame):\n    raise TimeoutError('time budget exhausted')\n_signal.signal(14, _budget_spent)\n_signal.alarm(5)\n";

/// Cancels a pending alarm.
pub const PYTHON_DISARM_BUDGET: &'static str = "_signal.alarm(0)\n";

/// The error for a lookup of `main`: none when it was found and is
/// callable, else an `InitializationError`.
pub fn entry_point_error(found: bool, callable: bool) -> (r: Option<ExecutionError>)
    ensures
        (!found || !callable) <==> r is Some,
        r is Some ==> r->Some_0 is InitializationError,
{
    if !found {
        Some(ExecutionError::InitializationError("main is not defined".to_string()))
    } else if !callable {
        Some(ExecutionError::InitializationError("main is not callable".to_string()))
    } else {
        None
    }
}

/// The decision `main`'s result makes: `None` stands for a result that is no
/// tuple, which is a `DeserializationError`; a tuple's items are read by
/// `decode_returned`.
pub fn decode_tuple(items: Option<Vec<ScriptValue>>) -> (r: Result<(bool, String), ExecutionError>)
    ensures
        items is None ==> r is Err && r->Err_0 is DeserializationError,
        items is Some && is_decision(items->Some_0@) ==> r is Ok
            && r->Ok_0.0 == items->Some_0@[0]->Bool_0 && r->Ok_0.1 == items->Some_0@[1]->Str_0,
        items is Some && !is_decision(items->Some_0@) ==> r is Err && r->Err_0 is DeserializationError,
{
    match items {
        None => Err(ExecutionError::DeserializationError("main did not return a tuple".to_string())),
        Some(values) => decode_returned(values),
    }
}

/// Runs a Python program under the time budget that `PYTHON_ARM_BUDGET`
/// arms, as `call_main` says; a program or call that
/// runs past it raises and fails as a `RuntimeError`. A budget that cannot
/// be armed is an `InitializationError`.
pub fn run_python(
    vm: &rustpython_vm::VirtualMachine,
    program: &str,
    history: &[(bool, bool)],
    storage: String,
) -> (r: Result<(bool, String), ExecutionError>)
    ensures
        !(r is Err && r->Err_0 is NotImplemented),
{
    let budget = py_new_scope(vm);
    if py_run_block(vm, &budget, PYTHON_ARM_BUDGET).is_err() {
        return Err(ExecutionError::InitializationError("the time budget could not be armed".to_string()));
    }
    let r = call_main(vm, program, history, storage);
    let _ = py_run_block(vm, &budget, PYTHON_DISARM_BUDGET);
    r
}

/// Runs a Python program into a fresh scope and calls its `main` with the
/// history as a list of `(bool, bool)` tuples and the storage as a `str`.
/// Running the program fails as `load_error` says; a missing or uncallable
/// `main` fails as `entry_point_error` says; a call that raises fails as
/// `call_error` says; the result is read by `decode_tuple`.
fn call_main(
    vm: &rustpython_vm::VirtualMachine,
    program: &str,
    history: &[(bool, bool)],
    storage: String,
) -> (r: Result<(bool, String), ExecutionError>)
    ensures
        !(r is Err && r->Err_0 is NotImplemented),
{
    let scope = py_new_scope(vm);
    match py_run_block(vm, &scope, program) {
        Ok(_) => {},
        Err(exception) => {
            return Err(load_error(py_failure(vm, &exception)));
        },
    }
    let main = match py_global(vm, &scope, "main") {
        Ok(main) => main,
        Err(_) => {
            return match entry_point_error(false, false) {
                Some(error) => Err(error),
                None => Err(ExecutionError::InitializationError("main is not defined".to_string())),
            };
        },
    };
    match entry_point_error(true, py_is_callable(&main)) {
        Some(error) => {
            return Err(error);
        },
        None => {},
    }
    let mut rounds: Vec<rustpython_vm::PyObjectRef> = Vec::new();
    let mut k: usize = 0;
    while k < history.len()
        decreases history@.len() - k,
    {
        let (me, them) = history[k];
        let mut pair: Vec<rustpython_vm::PyObjectRef> = Vec::new();
        pair.push(py_bool(vm, me));
        pair.push(py_bool(vm, them));
        rounds.push(py_tuple(vm, pair));
        k = k + 1;
    }
    let mut args: Vec<rustpython_vm::PyObjectRef> = Vec::new();
    args.push(py_list(vm, rounds));
    args.push(py_str(vm, storage));
    let result = match py_call(vm, &main, args) {
        Ok(result) => result,
        Err(exception) => {
            return Err(call_error(py_failure(vm, &exception)));
        },
    };
    let items = match py_tuple_items(result) {
        Ok(items) => items,
        Err(_) => {
            return decode_tuple(None);
        },
    };
    let mut values: Vec<ScriptValue> = Vec::new();
    let mut i: usize = 0;
    while i < items.len()
        decreases items@.len() - i,
    {
        values.push(py_value(vm, &items[i]));
        i = i + 1;
    }
    decode_tuple(Some(values))
}

} // verus!
