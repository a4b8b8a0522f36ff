use vstd::prelude::*;
use crate::error::ExecutionError;
use crate::lua::run_lua;
use crate::python::{python_enter, python_interpreter};

verus! {

/// A competitor's program, tagged with the interpreter that runs it.
///
/// Every program is called with `history`, the earlier rounds as
/// `(own action, opponent action)` pairs, oldest first (`true` is cooperate),
/// and `storage`, a string the program keeps between rounds of a match. It
/// returns the action it takes and the storage for the next round.
#[derive(Clone, Debug)]
pub enum Executor {
    /// Source text that evaluates to one function of `(history, storage)`,
    /// run in a fresh, sandboxed Luau state with a memory ceiling on every call.
    Lua(String),
    /// Source text whose top level defines `main(history, storage)`, run in
    /// the Python interpreter that a `Sandbox` holds and reuses.
    Python(String),
    /// Reserved: no interpreter yet.
    JavaScript(String),
    /// Reserved: no interpreter yet.
    WASM(String),
}

/// The interpreters that outlive a single call. Whoever runs programs owns
/// one; the Python interpreter is started on its first use and dropped with
/// the sandbox.
pub struct Sandbox {
    python: Option<rustpython_vm::Interpreter>,
    invocations: Ghost<Seq<Invocation>>,
}

/// One run of a program: the program, the history and storage it was
/// handed, and what came back.
pub struct Invocation {
    pub program: Executor,
    pub history: Seq<(bool, bool)>,
    pub storage: Seq<char>,
    pub outcome: Result<(bool, Seq<char>), ExecutionError>,
}

/// A backend's result as plain sequences.
pub open spec fn outcome_view(o: Result<(bool, String), ExecutionError>) -> Result<(bool, Seq<char>), ExecutionError> {
    match o {
        Ok((action, storage)) => Ok((action, storage@)),
        Err(e) => Err(e),
    }
}

impl Sandbox {
    /// Whether the shared Python interpreter has been started.
    pub closed spec fn python_started(&self) -> bool {
        self.python is Some
    }

    /// Every program run through this sandbox, oldest first.
    pub closed spec fn invocations(&self) -> Seq<Invocation> {
        self.invocations@
    }

    /// A sandbox that has started no interpreter and run nothing yet.
    pub fn new() -> (r: Sandbox)
        ensures
            !r.python_started(),
            r.invocations() == Seq::<Invocation>::empty(),
    {
        Sandbox { python: None, invocations: Ghost(Seq::empty()) }
    }
}

impl Executor {
    /// Whether a fresh interpreter is made for every call, rather than one
    /// that is kept and reused.
    pub open spec fn fresh_per_call_spec(&self) -> bool {
        self is Lua
    }

    /// Whether a fresh interpreter is made for every call, rather than one
    /// that is kept and reused.
    pub fn fresh_per_call(&self) -> (r: bool)
        ensures
            r == self.fresh_per_call_spec(),
    {
        match self {
            Executor::Lua(_) => true,
            _ => false,
        }
    }

    /// A copy of the program with the same backend.
    pub fn duplicate(&self) -> (r: Executor)
        ensures
            r == *self,
    {
        match self {
            Executor::Lua(p) => Executor::Lua(p.clone()),
            Executor::Python(p) => Executor::Python(p.clone()),
            Executor::JavaScript(p) => Executor::JavaScript(p.clone()),
            Executor::WASM(p) => Executor::WASM(p.clone()),
        }
    }

    /// Whether the backend has an interpreter at all.
    pub open spec fn implemented(&self) -> bool {
        self is Lua || self is Python
    }

    /// Runs the program on `history` and `storage`, giving the action it takes
    /// and its new storage. What the program returns is up to its author; the
    /// reserved backends always fail with `NotImplemented`.
    pub fn run(&self, sandbox: &mut Sandbox, history: &[(bool, bool)], storage: String) -> (r: Result<(bool, String), ExecutionError>)
        ensures
            !self.implemented() ==> r is Err && r->Err_0 is NotImplemented,
            self.implemented() ==> !(r is Err && r->Err_0 is NotImplemented),
            self is Python ==> final(sandbox).python_started(),
            !(self is Python) ==> final(sandbox).python_started() == old(sandbox).python_started(),
            final(sandbox).invocations() == old(sandbox).invocations().push(Invocation {
                program: *self,
                history: history@,
                storage: storage@,
                outcome: outcome_view(r),
            }),
    {
        let ghost invocation_history = history@;
        let ghost invocation_storage = storage@;
        let r = match self {
            Executor::Lua(program) => run_lua(program.as_str(), history, storage),
            Executor::Python(program) => {
                if sandbox.python.is_none() {
                    sandbox.python = Some(python_interpreter());
                }
                match &sandbox.python {
                    Some(interpreter) => python_enter(interpreter, program.as_str(), history, storage),
                    None => Err(ExecutionError::InitializationError("no Python interpreter".to_string())),
                }
            },
            Executor::JavaScript(_) => Err(ExecutionError::NotImplemented("JavaScript".to_string())),
            Executor::WASM(_) => Err(ExecutionError::NotImplemented("WASM".to_string())),
        };
        let ghost invocation = Invocation {
            program: *self,
            history: invocation_history,
            storage: invocation_storage,
            outcome: outcome_view(r),
        };
        sandbox.invocations = Ghost(sandbox.invocations@.push(invocation));
        r
    }
}

} // verus!
