use vstd::prelude::*;
use crate::error::ExecutionError;
use crate::executor::{outcome_view, Executor, Invocation, Sandbox};

verus! {

/// One call of a player's program: the history and storage it was handed,
/// and what the backend gave back (action and new storage, or the error).
pub struct Call {
    pub history: Seq<(bool, bool)>,
    pub storage: Seq<char>,
    pub outcome: Result<(bool, Seq<char>), ExecutionError>,
}

/// What a decision returns for a backend's result: the action, or the error.
pub open spec fn decision_of(o: Result<(bool, Seq<char>), ExecutionError>) -> Result<bool, ExecutionError> {
    match o {
        Ok((action, _)) => Ok(action),
        Err(e) => Err(e),
    }
}

/// The storage after a backend's result: the new one on success, else the old.
pub open spec fn storage_after(old_storage: Seq<char>, o: Result<(bool, Seq<char>), ExecutionError>) -> Seq<char> {
    match o {
        Ok((_, storage)) => storage,
        Err(_) => old_storage,
    }
}

/// A named competitor and the storage its program carries between rounds.
#[derive(Clone)]
pub struct Player {
    pub name: String,
    pub executor: Executor,
    storage: String,
    initial_storage: String,
    calls: Ghost<Seq<Call>>,
}

impl Player {
    /// The player's name.
    pub closed spec fn name_view(&self) -> Seq<char> {
        self.name@
    }

    /// The program the player runs.
    pub closed spec fn program(&self) -> Executor {
        self.executor
    }

    /// The storage the next decision will see.
    pub closed spec fn storage_view(&self) -> Seq<char> {
        self.storage@
    }

    /// The storage every match starts from.
    pub closed spec fn initial_storage_view(&self) -> Seq<char> {
        self.initial_storage@
    }

    /// Every call of the program this player value has made, oldest first.
    pub closed spec fn calls(&self) -> Seq<Call> {
        self.calls@
    }

    /// A player whose storage starts empty.
    pub fn new(name: String, executor: Executor) -> (r: Player)
        ensures
            r.name_view() == name@,
            r.program() == executor,
            r.storage_view() == Seq::<char>::empty(),
            r.initial_storage_view() == Seq::<char>::empty(),
            r.calls() == Seq::<Call>::empty(),
    {
        Player {
            name,
            executor,
            storage: String::new(),
            initial_storage: String::new(),
            calls: Ghost(Seq::empty()),
        }
    }

    /// The same player, with every match starting from `storage`.
    pub fn with_storage(self, storage: String) -> (r: Player)
        ensures
            r.name_view() == self.name_view(),
            r.program() == self.program(),
            r.storage_view() == storage@,
            r.initial_storage_view() == storage@,
            r.calls() == self.calls(),
    {
        let initial_storage = storage.clone();
        Player { name: self.name, executor: self.executor, storage, initial_storage, calls: self.calls }
    }

    /// A working copy for a new match: same name and program, storage back at
    /// its initial value, no calls made yet.
    pub fn fresh(&self) -> (r: Player)
        ensures
            r.name_view() == self.name_view(),
            r.program() == self.program(),
            r.storage_view() == self.initial_storage_view(),
            r.initial_storage_view() == self.initial_storage_view(),
            r.calls() == Seq::<Call>::empty(),
    {
        Player {
            name: self.name.clone(),
            executor: self.executor.duplicate(),
            storage: self.initial_storage.clone(),
            initial_storage: self.initial_storage.clone(),
            calls: Ghost(Seq::empty()),
        }
    }

    /// Asks the program for its action on `history`, the earlier rounds of the
    /// match from this player's side, handing it the current storage. The
    /// call is logged; its result goes through `record`.
    pub fn run(&mut self, sandbox: &mut Sandbox, history: &[(bool, bool)]) -> (r: Result<bool, ExecutionError>)
        ensures
            final(self).name_view() == old(self).name_view(),
            final(self).program() == old(self).program(),
            final(self).initial_storage_view() == old(self).initial_storage_view(),
            final(self).calls().len() == old(self).calls().len() + 1,
            final(self).calls().drop_last() == old(self).calls(),
            final(self).calls().last().history == history@,
            final(self).calls().last().storage == old(self).storage_view(),
            r == decision_of(final(self).calls().last().outcome),
            final(self).storage_view() == storage_after(old(self).storage_view(), final(self).calls().last().outcome),
            !old(self).program().implemented() ==> final(self).calls().last().outcome is Err
                && final(self).calls().last().outcome->Err_0 is NotImplemented,
            old(self).program().implemented() ==> !(final(self).calls().last().outcome is Err
                && final(self).calls().last().outcome->Err_0 is NotImplemented),
            final(sandbox).invocations() == old(sandbox).invocations().push(Invocation {
                program: old(self).program(),
                history: history@,
                storage: old(self).storage_view(),
                outcome: final(self).calls().last().outcome,
            }),
    {
        let outcome = self.executor.run(sandbox, history, self.storage.clone());
        self.record(history, outcome)
    }

    /// Takes a backend's result for a call on `history` with the current
    /// storage: logs the call, keeps the new storage and returns the action
    /// on success; on failure leaves the storage and returns the error.
    pub fn record(&mut self, history: &[(bool, bool)], outcome: Result<(bool, String), ExecutionError>) -> (r: Result<bool, ExecutionError>)
        ensures
            final(self).name_view() == old(self).name_view(),
            final(self).program() == old(self).program(),
            final(self).initial_storage_view() == old(self).initial_storage_view(),
            final(self).calls() == old(self).calls().push(Call {
                history: history@,
                storage: old(self).storage_view(),
                outcome: outcome_view(outcome),
            }),
            r == decision_of(outcome_view(outcome)),
            final(self).storage_view() == storage_after(old(self).storage_view(), outcome_view(outcome)),
    {
        let ghost call = Call { history: history@, storage: self.storage@, outcome: outcome_view(outcome) };
        self.calls = Ghost(self.calls@.push(call));
        match outcome {
            Ok((action, storage)) => {
                self.storage = storage;
                Ok(action)
            },
            Err(error) => Err(error),
        }
    }

    /// The storage the next decision will see.
    pub fn storage(&self) -> (r: &String)
        ensures
            r@ == self.storage_view(),
    {
        &self.storage
    }

    /// Puts the storage back to the value every match starts from.
    pub fn reset_storage(&mut self)
        ensures
            final(self).name_view() == old(self).name_view(),
            final(self).program() == old(self).program(),
            final(self).initial_storage_view() == old(self).initial_storage_view(),
            final(self).storage_view() == old(self).initial_storage_view(),
            final(self).calls() == old(self).calls(),
    {
        self.storage = self.initial_storage.clone();
    }
}

} // verus!
