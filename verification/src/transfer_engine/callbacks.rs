//! What is to be called when an operation is over.
use dashmap::DashMap;
use vstd::arithmetic::div_mod::{lemma_mod_multiples_vanish, lemma_small_mod};
use vstd::prelude::*;

use crate::api::{MemoryRegionHandle, TransferCompletionEntry, TransferId, UvmWatcherId};
use crate::error::FabricLibError;
use crate::provider::DomainCompletionEntry;
use crate::tables::{callbacks_in, get_callback, new_callbacks, take_callback};
use crate::worker::step::{
    lemma_confirmed_is_high, publication_keeps_the_completion, published_as,
};

verus! {

/// Names a function that the holder of the engine keeps.
#[derive(Clone, Copy, Debug, PartialEq, Eq, Hash, Structural)]
pub struct CallbackId(pub u64);

/// What to call when a transfer is over: one function if it is done, another if it has failed.
#[derive(Clone, Copy, Debug, PartialEq, Eq, Structural)]
pub struct TransferCallback {
    pub on_done: CallbackId,
    pub on_error: CallbackId,
}

/// A receive operation, which is submitted again after each message.
#[derive(Clone, Copy, Debug, PartialEq, Eq, Structural)]
pub struct RecvContext {
    pub worker_index: usize,
    pub mr: MemoryRegionHandle,
    pub ptr: u64,
    pub len: usize,
    pub on_recv: CallbackId,
    pub on_error: CallbackId,
}

/// What is to be called for one operation.
#[derive(Clone, Copy, Debug, PartialEq, Eq, Structural)]
pub enum CallbackEntry {
    /// A transfer with two functions.
    Split(TransferCallback),
    /// A transfer with one function for its result.
    Result(CallbackId),
    Send(CallbackId),
    Recv(RecvContext),
    /// Called once, when a count is reached.
    CountOnce(CallbackId),
    /// Called each time that a count is reached.
    CountRepeated(CallbackId),
    Watcher(CallbackId),
}

/// What to call for the operations that are not over.
pub struct Callbacks {
    /// Called for every immediate.
    pub imm: Vec<CallbackId>,
    /// Receives, by id.
    pub recv_ops: DashMap<u64, CallbackEntry>,
    /// Sends, by id.
    pub send_ops: DashMap<u64, CallbackEntry>,
    /// Transfers, by id.
    pub transfer_ops: DashMap<u64, CallbackEntry>,
    /// Counts of immediates, by immediate.
    pub imm_count: DashMap<u64, CallbackEntry>,
    /// Watched words, by id.
    pub watchers: DashMap<u64, CallbackEntry>,
}

/// What the tables of callbacks hold.
#[verifier::ext_equal]
pub struct CallbackTables {
    pub imm: Seq<CallbackId>,
    pub recv_ops: Map<u64, CallbackEntry>,
    pub send_ops: Map<u64, CallbackEntry>,
    pub transfer_ops: Map<u64, CallbackEntry>,
    pub imm_count: Map<u64, CallbackEntry>,
    pub watchers: Map<u64, CallbackEntry>,
}

impl View for Callbacks {
    type V = CallbackTables;

    open spec fn view(&self) -> CallbackTables {
        CallbackTables {
            imm: self.imm@,
            recv_ops: callbacks_in(self.recv_ops),
            send_ops: callbacks_in(self.send_ops),
            transfer_ops: callbacks_in(self.transfer_ops),
            imm_count: callbacks_in(self.imm_count),
            watchers: callbacks_in(self.watchers),
        }
    }
}

/// What is to be done about a completion.
#[derive(Debug)]
pub enum CompletionAction {
    /// Nothing: nobody waits for it.
    Nothing,
    /// Call the function. If it fails, the engine stops.
    Done { callback: CallbackId },
    /// Call the function with success or with the error. If it fails after a success, the engine
    /// stops.
    Finish { callback: CallbackId, error: Option<FabricLibError> },
    /// Call the function with the error. Its own failure is only logged.
    Fail { callback: CallbackId, error: FabricLibError },
    /// Call the function with the length of the message, then submit the receive again. If
    /// either fails, the engine stops.
    Receive { transfer_id: TransferId, data_len: usize, context: RecvContext },
    /// Call all functions with the immediate. If one fails, the engine stops.
    Immediate { imm: u32, callbacks: Vec<CallbackId> },
    /// Call all functions with the immediate, one after the other, and that so many times over.
    /// If one fails, the engine stops.
    Overflow { imm: u32, times: u32, callbacks: Vec<CallbackId> },
    /// Call the function.
    CountOnce { callback: CallbackId },
    /// Call the function; its answer tells whether it is to be called again.
    CountRepeated { imm: u32, callback: CallbackId },
    /// Call the function with both values; its answer tells whether to go on watching.
    Watch { id: UvmWatcherId, old: u64, new: u64, callback: CallbackId },
}

/// What is to be done about a completion, as a mathematical value.
pub enum Action {
    Nothing,
    Done(CallbackId),
    Finish(CallbackId, Option<FabricLibError>),
    Fail(CallbackId, FabricLibError),
    Receive(TransferId, usize, RecvContext),
    Immediate(u32, Seq<CallbackId>),
    Overflow(u32, u32, Seq<CallbackId>),
    CountOnce(CallbackId),
    CountRepeated(u32, CallbackId),
    Watch(UvmWatcherId, u64, u64, CallbackId),
}

impl View for CompletionAction {
    type V = Action;

    open spec fn view(&self) -> Action {
        match self {
            CompletionAction::Nothing => Action::Nothing,
            CompletionAction::Done { callback } => Action::Done(*callback),
            CompletionAction::Finish { callback, error } => Action::Finish(*callback, *error),
            CompletionAction::Fail { callback, error } => Action::Fail(*callback, *error),
            CompletionAction::Receive { transfer_id, data_len, context } => Action::Receive(
                *transfer_id,
                *data_len,
                *context,
            ),
            CompletionAction::Immediate { imm, callbacks } => Action::Immediate(*imm, callbacks@),
            CompletionAction::Overflow { imm, times, callbacks } => Action::Overflow(
                *imm,
                *times,
                callbacks@,
            ),
            CompletionAction::CountOnce { callback } => Action::CountOnce(*callback),
            CompletionAction::CountRepeated { imm, callback } => Action::CountRepeated(
                *imm,
                *callback,
            ),
            CompletionAction::Watch { id, old, new, callback } => Action::Watch(
                *id,
                *old,
                *new,
                *callback,
            ),
        }
    }
}

impl Action {
    /// Whether the engine stops if a function that is called for this fails. Functions that are
    /// told of a failure, or asked whether to go on, do not stop it.
    pub open spec fn is_fatal(self) -> bool {
        match self {
            Action::Done(_) => true,
            Action::Finish(_, error) => error is None,
            Action::Receive(_, _, _) => true,
            Action::Immediate(_, _) => true,
            Action::Overflow(_, _, _) => true,
            _ => false,
        }
    }
}

impl CompletionAction {
    /// Whether the engine stops if a function that is called for this fails.
    pub fn failure_stops_engine(&self) -> (fatal: bool)
        ensures
            fatal == self@.is_fatal(),
    {
        match self {
            CompletionAction::Done { .. } => true,
            CompletionAction::Finish { error, .. } => error.is_none(),
            CompletionAction::Receive { .. } => true,
            CompletionAction::Immediate { .. } => true,
            CompletionAction::Overflow { .. } => true,
            _ => false,
        }
    }
}

/// Whether a function that was asked whether to go on has said so. A failure says no.
pub open spec fn goes_on(answer: Result<bool, String>) -> bool {
    match answer {
        Ok(again) => again,
        Err(_) => false,
    }
}

/// What is to be called when a transfer is done.
pub open spec fn done_action(entry: CallbackEntry) -> Action {
    match entry {
        CallbackEntry::Split(callback) => Action::Done(callback.on_done),
        CallbackEntry::Result(callback) => Action::Finish(callback, None),
        _ => Action::Nothing,
    }
}

/// What is to be called when an operation has failed.
pub open spec fn failed_action(entry: CallbackEntry, error: FabricLibError) -> Action {
    match entry {
        CallbackEntry::Split(callback) => Action::Fail(callback.on_error, error),
        CallbackEntry::Result(callback) => Action::Finish(callback, Some(error)),
        CallbackEntry::Send(callback) => Action::Finish(callback, Some(error)),
        CallbackEntry::Recv(context) => Action::Fail(context.on_error, error),
        _ => Action::Nothing,
    }
}

impl CallbackTables {
    /// Every table holds only entries of its kind.
    pub open spec fn wf(self) -> bool {
        &&& forall|k: u64|
            #![trigger self.recv_ops[k]]
            self.recv_ops.contains_key(k) ==> self.recv_ops[k] is Recv
        &&& forall|k: u64|
            #![trigger self.send_ops[k]]
            self.send_ops.contains_key(k) ==> self.send_ops[k] is Send
        &&& forall|k: u64|
            #![trigger self.transfer_ops[k]]
            self.transfer_ops.contains_key(k) ==> self.transfer_ops[k] is Split
                || self.transfer_ops[k] is Result
        &&& forall|k: u64|
            #![trigger self.imm_count[k]]
            self.imm_count.contains_key(k) ==> self.imm_count[k] is CountOnce
                || self.imm_count[k] is CountRepeated
        &&& forall|k: u64|
            #![trigger self.watchers[k]]
            self.watchers.contains_key(k) ==> self.watchers[k] is Watcher
    }

    /// An operation has failed: whoever waits for it is called, and waits no longer. Transfers
    /// come first, then sends, then receives.
    pub open spec fn failed(self, id: TransferId, error: FabricLibError) -> (
        CallbackTables,
        Action,
    ) {
        if id.remote_confirmed() {
            (self, Action::Nothing)
        } else if self.transfer_ops.contains_key(id.0) {
            (
                CallbackTables { transfer_ops: self.transfer_ops.remove(id.0), ..self },
                failed_action(self.transfer_ops[id.0], error),
            )
        } else if self.send_ops.contains_key(id.0) {
            (
                CallbackTables { send_ops: self.send_ops.remove(id.0), ..self },
                failed_action(self.send_ops[id.0], error),
            )
        } else if self.recv_ops.contains_key(id.0) {
            (
                CallbackTables { recv_ops: self.recv_ops.remove(id.0), ..self },
                failed_action(self.recv_ops[id.0], error),
            )
        } else {
            (self, Action::Nothing)
        }
    }

    /// A completion arrives: the tables afterwards, and what is to be done.
    pub open spec fn completed(self, entry: TransferCompletionEntry) -> (CallbackTables, Action) {
        match entry {
            TransferCompletionEntry::Transfer(id) => if id.remote_confirmed()
                || !self.transfer_ops.contains_key(id.0) {
                (self, Action::Nothing)
            } else {
                (
                    CallbackTables { transfer_ops: self.transfer_ops.remove(id.0), ..self },
                    done_action(self.transfer_ops[id.0]),
                )
            },
            TransferCompletionEntry::Recv { transfer_id, data_len } => (
                self,
                if self.recv_ops.contains_key(transfer_id.0) {
                    match self.recv_ops[transfer_id.0] {
                        CallbackEntry::Recv(context) => Action::Receive(
                            transfer_id,
                            data_len,
                            context,
                        ),
                        _ => Action::Nothing,
                    }
                } else {
                    Action::Nothing
                },
            ),
            TransferCompletionEntry::Send(id) => if id.remote_confirmed()
                || !self.send_ops.contains_key(id.0) {
                (self, Action::Nothing)
            } else {
                (
                    CallbackTables { send_ops: self.send_ops.remove(id.0), ..self },
                    match self.send_ops[id.0] {
                        CallbackEntry::Send(callback) => Action::Finish(callback, None),
                        _ => Action::Nothing,
                    },
                )
            },
            TransferCompletionEntry::ImmData(imm) => (self, Action::Immediate(imm, self.imm)),
            TransferCompletionEntry::Immediate(_) => (self, Action::Nothing),
            TransferCompletionEntry::ImmCountReached(imm) => if self.imm_count.contains_key(
                imm as u64,
            ) {
                match self.imm_count[imm as u64] {
                    CallbackEntry::CountOnce(callback) => (
                        CallbackTables { imm_count: self.imm_count.remove(imm as u64), ..self },
                        Action::CountOnce(callback),
                    ),
                    CallbackEntry::CountRepeated(callback) => (
                        self,
                        Action::CountRepeated(imm, callback),
                    ),
                    _ => (self, Action::Nothing),
                }
            } else {
                (self, Action::Nothing)
            },
            TransferCompletionEntry::UvmWatch { id, old, new } => (
                self,
                if self.watchers.contains_key(id.0) {
                    match self.watchers[id.0] {
                        CallbackEntry::Watcher(callback) => Action::Watch(id, old, new, callback),
                        _ => Action::Nothing,
                    }
                } else {
                    Action::Nothing
                },
            ),
            TransferCompletionEntry::Error(id, error) => self.failed(id, error),
        }
    }
}

/// Operations that the remote application confirms are never waited for: nothing is called for
/// them, and nothing changes.
pub proof fn confirmed_operations_call_nothing(
    tables: CallbackTables,
    id: TransferId,
    error: FabricLibError,
)
    requires
        id.remote_confirmed(),
    ensures
        tables.completed(TransferCompletionEntry::Transfer(id)) == (tables, Action::Nothing),
        tables.completed(TransferCompletionEntry::Send(id)) == (tables, Action::Nothing),
        tables.completed(TransferCompletionEntry::Error(id, error)) == (tables, Action::Nothing),
{
}

/// Whoever waits for a transfer or a send is called once: after its completion, well or not,
/// another completion of the same operation calls nothing.
pub proof fn waiting_ends_with_the_first_call(
    tables: CallbackTables,
    id: TransferId,
    error: FabricLibError,
)
    requires
        tables.wf(),
        !id.remote_confirmed(),
    ensures
        tables.completed(TransferCompletionEntry::Transfer(id)).0.completed(
            TransferCompletionEntry::Transfer(id),
        ).1 is Nothing,
        tables.completed(TransferCompletionEntry::Send(id)).0.completed(
            TransferCompletionEntry::Send(id),
        ).1 is Nothing,
        tables.transfer_ops.contains_key(id.0) ==> tables.completed(
            TransferCompletionEntry::Error(id, error),
        ).0.completed(TransferCompletionEntry::Transfer(id)).1 is Nothing,
        tables.transfer_ops.contains_key(id.0) ==> !(tables.completed(
            TransferCompletionEntry::Transfer(id),
        ).1 is Nothing) && !(tables.completed(
            TransferCompletionEntry::Error(id, error),
        ).1 is Nothing),
{
}

/// A completion of one operation leaves all other operations waiting.
pub proof fn completion_leaves_other_operations_waiting(
    tables: CallbackTables,
    id: TransferId,
    error: FabricLibError,
    other: u64,
)
    requires
        other != id.0,
    ensures
        ({
            let done = tables.completed(TransferCompletionEntry::Transfer(id)).0;
            let sent = tables.completed(TransferCompletionEntry::Send(id)).0;
            let failed = tables.completed(TransferCompletionEntry::Error(id, error)).0;
            &&& done.transfer_ops.contains_key(other) == tables.transfer_ops.contains_key(other)
            &&& sent.send_ops.contains_key(other) == tables.send_ops.contains_key(other)
            &&& failed.transfer_ops.contains_key(other) == tables.transfer_ops.contains_key(other)
            &&& failed.send_ops.contains_key(other) == tables.send_ops.contains_key(other)
            &&& failed.recv_ops.contains_key(other) == tables.recv_ops.contains_key(other)
        }),
{
}

impl Callbacks {
    /// Nobody waits for anything.
    pub fn new() -> (callbacks: Self)
        ensures
            callbacks@.wf(),
            callbacks@.imm.len() == 0,
            callbacks@.recv_ops == Map::<u64, CallbackEntry>::empty(),
            callbacks@.send_ops == Map::<u64, CallbackEntry>::empty(),
            callbacks@.transfer_ops == Map::<u64, CallbackEntry>::empty(),
            callbacks@.imm_count == Map::<u64, CallbackEntry>::empty(),
            callbacks@.watchers == Map::<u64, CallbackEntry>::empty(),
    {
        Callbacks {
            imm: Vec::new(),
            recv_ops: new_callbacks(),
            send_ops: new_callbacks(),
            transfer_ops: new_callbacks(),
            imm_count: new_callbacks(),
            watchers: new_callbacks(),
        }
    }

    /// Finds out whom to call about an operation that has failed.
    fn fail(&mut self, id: TransferId, error: FabricLibError) -> (action: CompletionAction)
        requires
            old(self)@.wf(),
        ensures
            final(self)@.wf(),
            (final(self)@, action@) == old(self)@.failed(id, error),
    {
        if id.is_remote_confirmed() {
            return CompletionAction::Nothing;
        }
        let ghost before = self@;
        if let Some(entry) = take_callback(&mut self.transfer_ops, id.0) {
            assert(before.transfer_ops[id.0] == entry);
            return match entry {
                CallbackEntry::Split(callback) => CompletionAction::Fail {
                    callback: callback.on_error,
                    error,
                },
                CallbackEntry::Result(callback) => CompletionAction::Finish {
                    callback,
                    error: Some(error),
                },
                _ => CompletionAction::Nothing,
            };
        }
        assert(self@ =~= before);
        if let Some(entry) = take_callback(&mut self.send_ops, id.0) {
            assert(before.send_ops[id.0] == entry);
            return match entry {
                CallbackEntry::Send(callback) => CompletionAction::Finish {
                    callback,
                    error: Some(error),
                },
                _ => CompletionAction::Nothing,
            };
        }
        assert(self@ =~= before);
        if let Some(entry) = take_callback(&mut self.recv_ops, id.0) {
            assert(before.recv_ops[id.0] == entry);
            return match entry {
                CallbackEntry::Recv(context) => CompletionAction::Fail {
                    callback: context.on_error,
                    error,
                },
                _ => CompletionAction::Nothing,
            };
        }
        assert(self@ =~= before);
        CompletionAction::Nothing
    }

    /// Finds out what is to be done about a completion.
    pub fn complete(&mut self, entry: TransferCompletionEntry) -> (action: CompletionAction)
        requires
            old(self)@.wf(),
        ensures
            final(self)@.wf(),
            (final(self)@, action@) == old(self)@.completed(entry),
    {
        let ghost before = self@;
        match entry {
            TransferCompletionEntry::Transfer(id) => {
                if id.is_remote_confirmed() {
                    return CompletionAction::Nothing;
                }
                match take_callback(&mut self.transfer_ops, id.0) {
                    Some(CallbackEntry::Split(callback)) => CompletionAction::Done {
                        callback: callback.on_done,
                    },
                    Some(CallbackEntry::Result(callback)) => CompletionAction::Finish {
                        callback,
                        error: None,
                    },
                    Some(_) => CompletionAction::Nothing,
                    None => {
                        assert(self@ =~= before);
                        CompletionAction::Nothing
                    },
                }
            },
            TransferCompletionEntry::Recv { transfer_id, data_len } => {
                match get_callback(&self.recv_ops, transfer_id.0) {
                    Some(CallbackEntry::Recv(context)) => CompletionAction::Receive {
                        transfer_id,
                        data_len,
                        context,
                    },
                    _ => CompletionAction::Nothing,
                }
            },
            TransferCompletionEntry::Send(id) => {
                if id.is_remote_confirmed() {
                    return CompletionAction::Nothing;
                }
                match take_callback(&mut self.send_ops, id.0) {
                    Some(CallbackEntry::Send(callback)) => CompletionAction::Finish {
                        callback,
                        error: None,
                    },
                    Some(_) => CompletionAction::Nothing,
                    None => {
                        assert(self@ =~= before);
                        CompletionAction::Nothing
                    },
                }
            },
            TransferCompletionEntry::ImmData(imm) => {
                let callbacks = self.all_immediate();
                CompletionAction::Immediate { imm, callbacks }
            },
            TransferCompletionEntry::Immediate(_) => CompletionAction::Nothing,
            TransferCompletionEntry::ImmCountReached(imm) => {
                match get_callback(&self.imm_count, imm as u64) {
                    Some(CallbackEntry::CountOnce(callback)) => {
                        take_callback(&mut self.imm_count, imm as u64);
                        CompletionAction::CountOnce { callback }
                    },
                    Some(CallbackEntry::CountRepeated(callback)) => CompletionAction::CountRepeated {
                        imm,
                        callback,
                    },
                    _ => CompletionAction::Nothing,
                }
            },
            TransferCompletionEntry::UvmWatch { id, old, new } => {
                match get_callback(&self.watchers, id.0) {
                    Some(CallbackEntry::Watcher(callback)) => CompletionAction::Watch {
                        id,
                        old,
                        new,
                        callback,
                    },
                    _ => CompletionAction::Nothing,
                }
            },
            TransferCompletionEntry::Error(id, error) => self.fail(id, error),
        }
    }

    /// All functions that are called for an immediate, in the order in which they were added.
    pub fn all_immediate(&self) -> (callbacks: Vec<CallbackId>)
        ensures
            callbacks@ == self@.imm,
    {
        let mut callbacks: Vec<CallbackId> = Vec::with_capacity(self.imm.len());
        let mut i: usize = 0;
        while i < self.imm.len()
            invariant
                i <= self.imm@.len(),
                callbacks@ == self.imm@.take(i as int),
            decreases self.imm@.len() - i,
        {
            callbacks.push(self.imm[i]);
            i = i + 1;
            assert(callbacks@ =~= self.imm@.take(i as int));
        }
        assert(self.imm@.take(self.imm@.len() as int) =~= self.imm@);
        callbacks
    }

    /// Takes the answer of a function that was called because a message arrived; the receive
    /// that is to be submitted again, because the function has succeeded and somebody still
    /// waits.
    pub fn recv_answered(&self, id: TransferId, answer: &Result<(), String>) -> (again: Option<
        RecvContext,
    >)
        requires
            self@.wf(),
        ensures
            again is Some <==> *answer is Ok && self@.recv_ops.contains_key(id.0),
            again matches Some(context) ==> self@.recv_ops[id.0] == CallbackEntry::Recv(context),
    {
        match answer {
            Ok(_) => match get_callback(&self.recv_ops, id.0) {
                Some(CallbackEntry::Recv(context)) => Some(context),
                _ => None,
            },
            Err(_) => None,
        }
    }

    /// Takes the answer of a function that was called because a count was reached; whether the
    /// count is to be removed, because the function is not to be called again.
    pub fn count_answered(&mut self, imm: u32, answer: &Result<bool, String>) -> (remove: bool)
        requires
            old(self)@.wf(),
        ensures
            final(self)@.wf(),
            remove == !goes_on(*answer),
            remove <==> !(*answer matches Ok(again) && again),
            remove ==> final(self)@.completed(
                TransferCompletionEntry::ImmCountReached(imm),
            ).1 is Nothing,
            final(self)@ == if goes_on(*answer) {
                old(self)@
            } else {
                (CallbackTables {
                    imm_count: old(self)@.imm_count.remove(imm as u64),
                    ..old(self)@
                })
            },
    {
        match answer {
            Ok(true) => false,
            _ => {
                take_callback(&mut self.imm_count, imm as u64);
                true
            },
        }
    }

    /// Finds out what is to be done about the immediates that had arrived beyond a count that has
    /// been removed: they are treated as if nobody had counted them.
    pub fn count_removed(&self, imm: u32, left: Option<u32>) -> (action: CompletionAction)
        ensures
            action@ == overflow_action(self@, imm, left),
    {
        match left {
            Some(times) => {
                if times > 0 {
                    CompletionAction::Overflow { imm, times, callbacks: self.all_immediate() }
                } else {
                    CompletionAction::Nothing
                }
            },
            None => CompletionAction::Nothing,
        }
    }

    /// Takes the answer of a function that was called because a word has changed; whether the
    /// word is to be given back, because the function is not to be called again.
    pub fn watch_answered(&mut self, id: UvmWatcherId, answer: &Result<bool, String>) -> (release:
        bool)
        requires
            old(self)@.wf(),
        ensures
            final(self)@.wf(),
            release == !goes_on(*answer),
            release <==> !(*answer matches Ok(again) && again),
            release ==> !final(self)@.watchers.contains_key(id.0),
            final(self)@ == if goes_on(*answer) {
                old(self)@
            } else {
                (CallbackTables { watchers: old(self)@.watchers.remove(id.0), ..old(self)@ })
            },
    {
        match answer {
            Ok(true) => false,
            _ => {
                take_callback(&mut self.watchers, id.0);
                true
            },
        }
    }
}

/// A completion of a domain that is published reaches whoever waits for what it tells of, and
/// nobody else: a transfer's functions by success or failure, a message's sender, a receiver
/// with the length, all functions for immediates, and the function of a count. Whoever is called
/// for a transfer, for a message that was sent, for a failure or once for a count waits no
/// longer; all others wait on.
pub proof fn completions_reach_those_who_wait(tables: CallbackTables, entry: DomainCompletionEntry)
    requires
        tables.wf(),
        published_as(entry) is Some,
    ensures
        ({
            let (after, action) = tables.completed(published_as(entry)->Some_0);
            match entry {
                DomainCompletionEntry::Transfer(id) => if tables.transfer_ops.contains_key(id.0) {
                    &&& after == (CallbackTables {
                        transfer_ops: tables.transfer_ops.remove(id.0),
                        ..tables
                    })
                    &&& match tables.transfer_ops[id.0] {
                        CallbackEntry::Split(two) => action == Action::Done(two.on_done),
                        CallbackEntry::Result(one) => action == Action::Finish(one, None),
                        _ => false,
                    }
                } else {
                    after == tables && action is Nothing
                },
                DomainCompletionEntry::Send(id) => if tables.send_ops.contains_key(id.0) {
                    &&& after == (CallbackTables {
                        send_ops: tables.send_ops.remove(id.0),
                        ..tables
                    })
                    &&& tables.send_ops[id.0] matches CallbackEntry::Send(one) && action
                        == Action::Finish(one, None)
                } else {
                    after == tables && action is Nothing
                },
                DomainCompletionEntry::Recv { transfer_id, data_len } => {
                    &&& after == tables
                    &&& if tables.recv_ops.contains_key(transfer_id.0) {
                        tables.recv_ops[transfer_id.0] matches CallbackEntry::Recv(context)
                            && action == Action::Receive(transfer_id, data_len, context)
                    } else {
                        action is Nothing
                    }
                },
                DomainCompletionEntry::ImmData(imm) => after == tables && action
                    == Action::Immediate(imm, tables.imm),
                DomainCompletionEntry::Immediate(_) => after == tables && action is Nothing,
                DomainCompletionEntry::ImmCountReached(imm) => {
                    &&& after.imm == tables.imm
                    &&& after.recv_ops == tables.recv_ops
                    &&& after.send_ops == tables.send_ops
                    &&& after.transfer_ops == tables.transfer_ops
                    &&& after.watchers == tables.watchers
                    &&& if tables.imm_count.contains_key(imm as u64) {
                        match tables.imm_count[imm as u64] {
                            CallbackEntry::CountOnce(one) => action == Action::CountOnce(one)
                                && after.imm_count == tables.imm_count.remove(imm as u64),
                            CallbackEntry::CountRepeated(one) => action == Action::CountRepeated(
                                imm,
                                one,
                            ) && after.imm_count == tables.imm_count,
                            _ => false,
                        }
                    } else {
                        action is Nothing && after.imm_count == tables.imm_count
                    }
                },
                DomainCompletionEntry::Error(id, error) => if id.0 >= 0x8000_0000_0000_0000 {
                    after == tables && action is Nothing
                } else if tables.transfer_ops.contains_key(id.0) {
                    &&& after == (CallbackTables {
                        transfer_ops: tables.transfer_ops.remove(id.0),
                        ..tables
                    })
                    &&& match tables.transfer_ops[id.0] {
                        CallbackEntry::Split(two) => action == Action::Fail(two.on_error, error),
                        CallbackEntry::Result(one) => action == Action::Finish(one, Some(error)),
                        _ => false,
                    }
                } else if tables.send_ops.contains_key(id.0) {
                    &&& after == (CallbackTables {
                        send_ops: tables.send_ops.remove(id.0),
                        ..tables
                    })
                    &&& tables.send_ops[id.0] matches CallbackEntry::Send(one) && action
                        == Action::Finish(one, Some(error))
                } else if tables.recv_ops.contains_key(id.0) {
                    &&& after == (CallbackTables {
                        recv_ops: tables.recv_ops.remove(id.0),
                        ..tables
                    })
                    &&& tables.recv_ops[id.0] matches CallbackEntry::Recv(context) && action
                        == Action::Fail(context.on_error, error)
                } else {
                    after == tables && action is Nothing
                },
            }
        }),
{
    publication_keeps_the_completion(entry);
    match entry {
        DomainCompletionEntry::Error(id, _) => {
            lemma_confirmed_is_high(id);
        },
        DomainCompletionEntry::Transfer(id) => {
            lemma_confirmed_is_high(id);
        },
        DomainCompletionEntry::Send(id) => {
            lemma_confirmed_is_high(id);
        },
        _ => {},
    }
}

/// Whoever watches a word is told of every change of it, with both values, and watches on.
pub proof fn changes_reach_those_who_watch(
    tables: CallbackTables,
    id: UvmWatcherId,
    old_value: u64,
    new_value: u64,
)
    requires
        tables.wf(),
    ensures
        ({
            let (after, action) = tables.completed(
                TransferCompletionEntry::UvmWatch { id, old: old_value, new: new_value },
            );
            &&& after == tables
            &&& if tables.watchers.contains_key(id.0) {
                action matches Action::Watch(of, was, is, callback) && of == id && was == old_value
                    && is == new_value && tables.watchers[id.0] == CallbackEntry::Watcher(callback)
            } else {
                action is Nothing
            }
        }),
{
}

/// The engine stops exactly if a function fails that was told of a success or of an immediate:
/// functions that are told of a failure, and those that are asked whether to go on, do not stop
/// it.
pub proof fn only_successes_can_stop_the_engine(
    tables: CallbackTables,
    entry: TransferCompletionEntry,
)
    requires
        tables.wf(),
    ensures
        ({
            let action = tables.completed(entry).1;
            action.is_fatal() <==> !(action is Nothing) && match entry {
                TransferCompletionEntry::Transfer(_) => true,
                TransferCompletionEntry::Send(_) => true,
                TransferCompletionEntry::Recv { .. } => true,
                TransferCompletionEntry::ImmData(_) => true,
                _ => false,
            }
        }),
{
    if let TransferCompletionEntry::Error(id, error) = entry {
        assert(!tables.failed(id, error).1.is_fatal());
    }
}

/// The calls that an action about immediates asks for: each function, with the immediate.
pub open spec fn immediate_calls(action: Action) -> Seq<(CallbackId, u32)> {
    match action {
        Action::Immediate(imm, callbacks) => Seq::new(
            callbacks.len(),
            |c: int| (callbacks[c], imm),
        ),
        Action::Overflow(imm, times, callbacks) => Seq::new(
            (times * callbacks.len()) as nat,
            |c: int| (callbacks[c % callbacks.len() as int], imm),
        ),
        _ => Seq::empty(),
    }
}

/// The same calls, again and again.
pub open spec fn repeated(calls: Seq<(CallbackId, u32)>, times: nat) -> Seq<(CallbackId, u32)>
    decreases times,
{
    if times == 0 {
        Seq::empty()
    } else {
        repeated(calls, (times - 1) as nat) + calls
    }
}

/// What is to be done about immediates that had arrived beyond a count that has been removed.
pub open spec fn overflow_action(tables: CallbackTables, imm: u32, left: Option<u32>) -> Action {
    match left {
        Some(times) if times > 0 => Action::Overflow(imm, times, tables.imm),
        _ => Action::Nothing,
    }
}

/// Immediates that had arrived beyond a count that has been removed lead to the same calls, in
/// the same order, as if nobody had counted them and each had been reported by itself.
pub proof fn uncounted_immediates_are_made_up_for(
    tables: CallbackTables,
    imm: u32,
    left: Option<u32>,
)
    ensures
        immediate_calls(overflow_action(tables, imm, left)) == repeated(
            immediate_calls(tables.completed(TransferCompletionEntry::ImmData(imm)).1),
            match left {
                Some(times) => times as nat,
                None => 0,
            },
        ),
{
    let calls = immediate_calls(tables.completed(TransferCompletionEntry::ImmData(imm)).1);
    let times = match left {
        Some(times) => times as nat,
        None => 0,
    };
    lemma_repeated(tables.imm, imm, calls, times);
    assert(times > 0 ==> overflow_action(tables, imm, left) == Action::Overflow(
        imm,
        times as u32,
        tables.imm,
    ));
    assert(immediate_calls(overflow_action(tables, imm, left)) =~= repeated(calls, times)) by {
        if times == 0 {
            assert(repeated(calls, times) =~= Seq::<(CallbackId, u32)>::empty());
        }
    }
}

proof fn lemma_repeated(
    callbacks: Seq<CallbackId>,
    imm: u32,
    calls: Seq<(CallbackId, u32)>,
    times: nat,
)
    requires
        calls == Seq::new(callbacks.len(), |c: int| (callbacks[c], imm)),
    ensures
        repeated(calls, times) == Seq::new(
            (times * callbacks.len()) as nat,
            |c: int| (callbacks[c % callbacks.len() as int], imm),
        ),
    decreases times,
{
    let n = callbacks.len() as int;
    let whole = Seq::new(
        (times * callbacks.len()) as nat,
        |c: int| (callbacks[c % callbacks.len() as int], imm),
    );
    if times == 0 {
        assert(times * callbacks.len() == 0) by (nonlinear_arith)
            requires
                times == 0,
        ;
        assert(repeated(calls, times) =~= whole);
    } else {
        let less = (times - 1) as nat;
        lemma_repeated(callbacks, imm, calls, less);
        assert(times * callbacks.len() == less * callbacks.len() + n) by (nonlinear_arith)
            requires
                times == less + 1,
                n == callbacks.len(),
        ;
        let joined = repeated(calls, less) + calls;
        assert forall|c: int| 0 <= c < joined.len() implies joined[c] == whole[c] by {
            if c >= less * n {
                let d = c - less * n;
                lemma_mod_multiples_vanish(less as int, d, n);
                lemma_small_mod(d as nat, n as nat);
                assert(n * less + d == less * n + d) by (nonlinear_arith);
            }
        }
        assert(joined =~= whole);
    }
}

/// A function that is called again and again is kept exactly as long as it succeeds and answers
/// that it is to be called again.
pub proof fn functions_are_kept_while_they_ask_for_more(answer: Result<bool, String>)
    ensures
        goes_on(answer) <==> answer == Ok::<bool, String>(true),
{
}

} // verus!
