//! Operations with callbacks: an id for each, the functions to be called when it is over, and
//! the command for the worker that carries it.
pub mod callbacks;
pub mod threads;

use vstd::prelude::*;

use crate::api::{
    DomainAddress, MemoryRegionHandle, REMOTE_CONFIRMED_OPERATION_BIT, TransferCompletionEntry,
    TransferId, TransferRequest, UvmWatcherId,
};
use crate::error::FabricLibError;
use crate::fabric_engine::routing::{routed_transfers_keep_their_errand, same_errand};
use crate::fabric_engine::{
    FabricEngine, engine_fault, engine_has_what_its_workers_have, engine_in_range,
};
use crate::provider::{DomainCompletionEntry, addr_bytes};
use crate::tables::{put_callback, take_callback};
use crate::transfer_engine::callbacks::{
    Action, CallbackEntry, CallbackId, CallbackTables, Callbacks, CompletionAction, RecvContext,
    TransferCallback, done_action, failed_action,
};
use crate::transfer_engine::threads::{
    BounceSlot, CompletionCpuPolicy, CompletionThread, bounce_lanes, bounce_slot,
    check_completion_cpus, plan_bounces, plan_threads, striped_bounces_stay_on_the_first_worker,
    thread_of, threads_fault, threads_stand_where_they_are_put,
};
use crate::worker::poller::PollingMode;
use crate::worker::step::{lemma_confirmed_is_high, published_as};
use crate::worker::{WorkerCommand, WorkerHandle};

verus! {

/// A message in registered memory.
#[derive(Clone, Copy, Debug, PartialEq, Eq, Structural)]
pub struct SendBuffer {
    pub mr_handle: MemoryRegionHandle,
    pub ptr: u64,
    pub len: usize,
    pub coalescible: bool,
}

/// An engine, and what to call when its operations are over.
pub struct TransferEngine {
    pub next_transfer_id: u64,
    pub engine: FabricEngine,
    pub callbacks: Callbacks,
}

/// An operation that has an id and is to be handed to a worker.
pub struct Submission<C, A> {
    pub transfer_id: TransferId,
    pub worker_index: usize,
    pub command: WorkerCommand<C, A>,
}

/// What follows once the function that a message was handed to has answered.
pub enum AfterMessage<C, A> {
    /// The function has failed: nothing is submitted, and the engine stops.
    Stop(String),
    /// Nobody waits for another message.
    Nothing,
    /// The receive is submitted again.
    ReceiveAgain(Submission<C, A>),
    /// The receive cannot be submitted again: the engine stops.
    Refused(FabricLibError),
}

impl TransferEngine {
    /// The engine has workers, and the tables hold what they are for.
    pub open spec fn wf(&self) -> bool {
        &&& self.engine.wf()
        &&& self.callbacks@.wf()
    }

    /// How many threads call callbacks.
    pub open spec fn thread_count(engine: &FabricEngine) -> int {
        if engine.host_striped {
            engine.workers@.len() as int
        } else {
            1
        }
    }

    /// An engine of these workers, on which nothing has been submitted, and its threads; or why
    /// there is none.
    pub open spec fn made(
        workers: Seq<(u8, WorkerHandle)>,
        policy: &CompletionCpuPolicy,
        polling: Seq<PollingMode>,
        host_striped: bool,
        made: Result<(TransferEngine, Vec<CompletionThread>), FabricLibError>,
    ) -> bool {
        match (engine_fault(workers, host_striped), made) {
            (Some(fault), Err(error)) => error == fault,
            (Some(_), Ok(_)) => false,
            (None, Ok((transfers, threads))) => {
                let count = Self::thread_count(&transfers.engine);
                &&& transfers.wf()
                &&& transfers.engine.made_of(workers, host_striped)
                &&& transfers.next_transfer_id == 0
                &&& transfers.callbacks@ == empty_tables()
                &&& threads_fault(policy, count) is None
                &&& threads@ == Seq::new(
                    count as nat,
                    |i: int| thread_of(policy, polling, host_striped, i),
                )
            },
            (None, Err(error)) => exists|engine: FabricEngine|
                {
                    &&& #[trigger] engine.made_of(workers, host_striped)
                    &&& engine.wf()
                    &&& threads_fault(policy, Self::thread_count(&engine)) == Some(error)
                },
        }
    }

    fn new_inner(
        workers: Vec<(u8, WorkerHandle)>,
        policy: CompletionCpuPolicy,
        polling: Vec<PollingMode>,
        host_striped: bool,
    ) -> (made: Result<(Self, Vec<CompletionThread>), FabricLibError>)
        requires
            engine_in_range(workers@, host_striped),
            policy matches CompletionCpuPolicy::Exact(cpus) ==> host_striped && cpus@.len()
                == workers@.len(),
        ensures
            Self::made(workers@, &policy, polling@, host_striped, made),
    {
        let ghost given = workers@;
        let engine = if host_striped {
            FabricEngine::new_host_striped(workers)
        } else {
            FabricEngine::new(workers)
        };
        let engine = match engine {
            Ok(engine) => engine,
            Err(error) => {
                return Err(error);
            },
        };
        let count: usize = if host_striped {
            engine.worker_count()
        } else {
            1
        };
        assert(engine.made_of(given, host_striped));
        let threads = match plan_threads(count, &policy, &polling, host_striped) {
            Ok(threads) => threads,
            Err(error) => {
                return Err(error);
            },
        };
        let callbacks = Callbacks::new();
        assert(callbacks@ =~= empty_tables());
        Ok((TransferEngine { next_transfer_id: 0, engine, callbacks }, threads))
    }

    /// An engine whose workers serve one device each, with its thread on no particular CPU.
    pub fn new(workers: Vec<(u8, WorkerHandle)>, polling: Vec<PollingMode>) -> (made: Result<
        (Self, Vec<CompletionThread>),
        FabricLibError,
    >)
        requires
            engine_in_range(workers@, false),
        ensures
            Self::made(
                workers@,
                &CompletionCpuPolicy::Strided(None),
                polling@,
                false,
                made,
            ),
    {
        Self::new_with_completion_cpu(workers, polling, None)
    }

    /// An engine whose workers serve one device each, with its thread on a given CPU.
    pub fn new_with_completion_cpu(
        workers: Vec<(u8, WorkerHandle)>,
        polling: Vec<PollingMode>,
        completion_cpu: Option<u16>,
    ) -> (made: Result<(Self, Vec<CompletionThread>), FabricLibError>)
        requires
            engine_in_range(workers@, false),
        ensures
            Self::made(
                workers@,
                &CompletionCpuPolicy::Strided(completion_cpu),
                polling@,
                false,
                made,
            ),
    {
        Self::new_inner(workers, CompletionCpuPolicy::Strided(completion_cpu), polling, false)
    }

    /// An engine whose workers serve host memory alike, with their threads from a given CPU on.
    pub fn new_host_striped_with_completion_cpu(
        workers: Vec<(u8, WorkerHandle)>,
        polling: Vec<PollingMode>,
        completion_cpu: Option<u16>,
    ) -> (made: Result<(Self, Vec<CompletionThread>), FabricLibError>)
        requires
            engine_in_range(workers@, true),
        ensures
            Self::made(
                workers@,
                &CompletionCpuPolicy::Strided(completion_cpu),
                polling@,
                true,
                made,
            ),
    {
        Self::new_inner(workers, CompletionCpuPolicy::Strided(completion_cpu), polling, true)
    }

    /// An engine whose workers serve host memory alike, with each thread on its own given CPU.
    pub fn new_host_striped_with_completion_cpus(
        workers: Vec<(u8, WorkerHandle)>,
        polling: Vec<PollingMode>,
        completion_cpus: Vec<Option<u16>>,
    ) -> (made: Result<(Self, Vec<CompletionThread>), FabricLibError>)
        requires
            completion_cpus@.len() == workers@.len() ==> engine_in_range(workers@, true),
        ensures
            if completion_cpus@.len() != workers@.len() {
                made == Err::<(Self, Vec<CompletionThread>), FabricLibError>(
                    FabricLibError::Custom("completion CPU count must match worker count"),
                )
            } else {
                Self::made(
                    workers@,
                    &CompletionCpuPolicy::Exact(completion_cpus),
                    polling@,
                    true,
                    made,
                )
            },
    {
        match check_completion_cpus(workers.len(), completion_cpus.len()) {
            Ok(_) => {},
            Err(error) => {
                return Err(error);
            },
        }
        Self::new_inner(workers, CompletionCpuPolicy::Exact(completion_cpus), polling, true)
    }

    pub fn num_domains(&self) -> (n: usize)
        ensures
            n == self.engine.num_domains,
    {
        self.engine.num_domains()
    }

    pub fn num_groups(&self) -> (n: usize)
        ensures
            n == self.engine.num_groups,
    {
        self.engine.num_groups()
    }

    pub fn aggregated_link_speed(&self) -> (speed: u64)
        ensures
            speed == self.engine.aggregated_link_speed,
    {
        self.engine.aggregated_link_speed()
    }

    /// The first address of each worker, for messages.
    pub fn control_addresses(&self) -> (addresses: Vec<DomainAddress>)
        requires
            forall|i: int|
                #![trigger self.engine.workers@[i]]
                0 <= i < self.engine.workers@.len()
                    ==> self.engine.workers@[i].1.address_list@.len() > 0,
        ensures
            addr_bytes(addresses@) == Seq::new(
                self.engine.workers@.len(),
                |i: int| self.engine.workers@[i].1.address_list@[0]@,
            ),
    {
        self.engine.main_addresses()
    }

    /// How many workers messages can go through.
    pub fn control_lane_count(&self) -> (n: usize)
        ensures
            n == self.engine.workers@.len(),
    {
        self.engine.worker_count()
    }

    /// How many workers receives bounce on.
    pub open spec fn bounce_lanes(&self) -> int {
        bounce_lanes(self.engine.host_striped, self.engine.workers@.len() as int)
    }

    /// How many workers receives bounce on: only the first of a striped engine.
    pub fn bounce_lane_count(&self) -> (lanes: usize)
        ensures
            lanes == self.bounce_lanes(),
    {
        if self.engine.host_striped {
            1
        } else {
            self.engine.worker_count()
        }
    }

    /// Lays out a buffer at `base` for receives of up to `len` bytes, `count` for each worker
    /// that receives bounce on.
    pub fn plan_bouncing_recvs(&self, base: u64, len: usize, count: usize) -> (slots: Vec<
        BounceSlot,
    >)
        requires
            len * count * self.bounce_lanes() <= usize::MAX,
            count * self.bounce_lanes() <= usize::MAX,
            base + len * count * self.bounce_lanes() <= u64::MAX,
        ensures
            slots@ == Seq::new(
                (count * self.bounce_lanes()) as nat,
                |i: int| bounce_slot(base, len, count, i),
            ),
            self.engine.host_striped ==> forall|i: int|
                #![trigger slots@[i]]
                0 <= i < slots@.len() ==> slots@[i].worker_index == 0,
    {
        let slots = plan_bounces(base, len, count, self.bounce_lane_count());
        proof {
            if self.engine.host_striped {
                let workers = self.engine.workers@.len() as int;
                assert forall|i: int|
                    #![trigger slots@[i]]
                    0 <= i < slots@.len() implies slots@[i].worker_index == 0 by {
                    striped_bounces_stay_on_the_first_worker(base, len, count, workers, i);
                }
            }
        }
        slots
    }

    /// Only the callbacks and the next id differ.
    pub open spec fn same_engine(&self, other: &Self) -> bool {
        self.engine == other.engine
    }

    fn assign_transfer_id(&mut self) -> (id: TransferId)
        ensures
            id.0 == old(self).next_transfer_id,
            *final(self) == (TransferEngine {
                next_transfer_id: old(self).next_transfer_id.wrapping_add(1),
                ..*old(self)
            }),
    {
        let id: u64 = self.next_transfer_id;
        self.next_transfer_id = id.wrapping_add(1);
        TransferId(id)
    }

    /// Has a function called for every immediate.
    pub fn add_imm_callback(&mut self, callback: CallbackId)
        requires
            old(self).wf(),
        ensures
            final(self).wf(),
            final(self).same_engine(old(self)),
            final(self).next_transfer_id == old(self).next_transfer_id,
            final(self).callbacks@ == (CallbackTables {
                imm: old(self).callbacks@.imm.push(callback),
                ..old(self).callbacks@
            }),
            forall|imm: u32|
                (#[trigger] final(self).callbacks@.completed(
                    TransferCompletionEntry::ImmData(imm),
                )).1 matches Action::Immediate(of, called) && of == imm && called.last() == callback
                    && called.drop_last() == old(self).callbacks@.imm,
    {
        self.callbacks.imm.push(callback);
    }

    /// Has a function called each time, or once, that the count of an immediate is reached.
    pub fn set_imm_count_expected(&mut self, imm: u32, callback: CallbackId, once: bool)
        requires
            old(self).wf(),
        ensures
            final(self).wf(),
            final(self).same_engine(old(self)),
            final(self).next_transfer_id == old(self).next_transfer_id,
            final(self).callbacks@ == (CallbackTables {
                imm_count: old(self).callbacks@.imm_count.insert(
                    imm as u64,
                    if once {
                        CallbackEntry::CountOnce(callback)
                    } else {
                        CallbackEntry::CountRepeated(callback)
                    },
                ),
                ..old(self).callbacks@
            }),
            final(self).callbacks@.completed(TransferCompletionEntry::ImmCountReached(imm)).1
                == if once {
                Action::CountOnce(callback)
            } else {
                Action::CountRepeated(imm, callback)
            },
            final(self).callbacks@.completed(
                TransferCompletionEntry::ImmCountReached(imm),
            ).0.imm_count.contains_key(imm as u64) == !once,
    {
        let entry = if once {
            CallbackEntry::CountOnce(callback)
        } else {
            CallbackEntry::CountRepeated(callback)
        };
        put_callback(&mut self.callbacks.imm_count, imm as u64, entry);
    }

    /// Has no function called any more when the count of an immediate is reached.
    pub fn remove_imm_count(&mut self, imm: u32)
        requires
            old(self).wf(),
        ensures
            final(self).wf(),
            final(self).same_engine(old(self)),
            final(self).next_transfer_id == old(self).next_transfer_id,
            final(self).callbacks@ == (CallbackTables {
                imm_count: old(self).callbacks@.imm_count.remove(imm as u64),
                ..old(self).callbacks@
            }),
            final(self).callbacks@.completed(
                TransferCompletionEntry::ImmCountReached(imm),
            ).1 is Nothing,
    {
        take_callback(&mut self.callbacks.imm_count, imm as u64);
    }

    /// Has a function called when a watched word changes.
    pub fn add_watcher(&mut self, watcher: UvmWatcherId, callback: CallbackId)
        requires
            old(self).wf(),
        ensures
            final(self).wf(),
            final(self).same_engine(old(self)),
            final(self).next_transfer_id == old(self).next_transfer_id,
            final(self).callbacks@ == (CallbackTables {
                watchers: old(self).callbacks@.watchers.insert(
                    watcher.0,
                    CallbackEntry::Watcher(callback),
                ),
                ..old(self).callbacks@
            }),
            final(self).callbacks@.completed(
                TransferCompletionEntry::UvmWatch { id: watcher, old: 1, new: 2 },
            ).1 == Action::Watch(watcher, 1, 2, callback),
    {
        put_callback(&mut self.callbacks.watchers, watcher.0, CallbackEntry::Watcher(callback));
    }

    /// The tables once a transfer waits, or, if it has been refused, does not.
    pub open spec fn transfer_entered(
        &self,
        after: &Self,
        entry: CallbackEntry,
        accepted: bool,
    ) -> bool {
        after.callbacks@ == (CallbackTables {
            transfer_ops: if accepted {
                self.callbacks@.transfer_ops.insert(self.next_transfer_id, entry)
            } else {
                self.callbacks@.transfer_ops.remove(self.next_transfer_id)
            },
            ..self.callbacks@
        })
    }

    /// The next id has been given out, and the engine has routed the request under `id`.
    pub open spec fn transfer_submitted<C, A>(
        &self,
        after: &Self,
        id: TransferId,
        request: &TransferRequest,
        tx_counter: Option<C>,
        submitted: Result<Submission<C, A>, FabricLibError>,
    ) -> bool {
        &&& after.next_transfer_id == self.next_transfer_id.wrapping_add(1)
        &&& match submitted {
            Ok(submission) => submission.transfer_id == id && self.engine.transfer_outcome(
                &after.engine,
                id,
                request,
                tx_counter,
                Ok::<(usize, WorkerCommand<C, A>), FabricLibError>(
                    (submission.worker_index, submission.command),
                ),
            ),
            Err(error) => self.engine.transfer_outcome(
                &after.engine,
                id,
                request,
                tx_counter,
                Err::<(usize, WorkerCommand<C, A>), FabricLibError>(error),
            ),
        }
    }

    fn submit_entry<C, A>(&mut self, request: TransferRequest, entry: CallbackEntry) -> (submitted:
        Result<Submission<C, A>, FabricLibError>)
        requires
            old(self).wf(),
            entry is Split || entry is Result,
        ensures
            final(self).wf(),
            old(self).transfer_submitted(
                final(self),
                TransferId(old(self).next_transfer_id),
                &request,
                None,
                submitted,
            ),
            old(self).transfer_entered(final(self), entry, submitted is Ok),
    {
        let ghost before = *self;
        let transfer_id = self.assign_transfer_id();
        put_callback(&mut self.callbacks.transfer_ops, transfer_id.0, entry);
        match self.engine.submit_transfer(transfer_id, request, None) {
            Ok((worker_index, command)) => Ok(Submission { transfer_id, worker_index, command }),
            Err(error) => {
                take_callback(&mut self.callbacks.transfer_ops, transfer_id.0);
                proof {
                    assert(self.callbacks@.transfer_ops
                        =~= before.callbacks@.transfer_ops.remove(transfer_id.0));
                }
                Err(error)
            },
        }
    }

    /// Submits a transfer with two functions: one for when it is done, one for when it fails.
    pub fn submit_transfer<C, A>(&mut self, request: TransferRequest, callback: TransferCallback) -> (
    submitted: Result<Submission<C, A>, FabricLibError>)
        requires
            old(self).wf(),
        ensures
            final(self).wf(),
            old(self).transfer_submitted(
                final(self),
                TransferId(old(self).next_transfer_id),
                &request,
                None,
                submitted,
            ),
            old(self).transfer_entered(
                final(self),
                CallbackEntry::Split(callback),
                submitted is Ok,
            ),
    {
        self.submit_entry(request, CallbackEntry::Split(callback))
    }

    /// Submits a transfer with one function for its result.
    pub fn submit_transfer_result<C, A>(&mut self, request: TransferRequest, callback: CallbackId)
        -> (submitted: Result<Submission<C, A>, FabricLibError>)
        requires
            old(self).wf(),
        ensures
            final(self).wf(),
            old(self).transfer_submitted(
                final(self),
                TransferId(old(self).next_transfer_id),
                &request,
                None,
                submitted,
            ),
            old(self).transfer_entered(
                final(self),
                CallbackEntry::Result(callback),
                submitted is Ok,
            ),
    {
        self.submit_entry(request, CallbackEntry::Result(callback))
    }

    /// Submits a transfer whose end a counter shows; nothing is called for it.
    pub fn submit_transfer_atomic<C, A>(&mut self, request: TransferRequest, tx_counter: C) -> (
    submitted: Result<Submission<C, A>, FabricLibError>)
        requires
            old(self).wf(),
        ensures
            final(self).wf(),
            old(self).transfer_submitted(
                final(self),
                TransferId(old(self).next_transfer_id),
                &request,
                Some(tx_counter),
                submitted,
            ),
            final(self).callbacks@ == old(self).callbacks@,
    {
        let transfer_id = self.assign_transfer_id();
        match self.engine.submit_transfer(transfer_id, request, Some(tx_counter)) {
            Ok((worker_index, command)) => Ok(Submission { transfer_id, worker_index, command }),
            Err(error) => Err(error),
        }
    }

    /// The id that the next operation has if the remote application confirms it.
    pub open spec fn confirmed_id(&self) -> TransferId {
        TransferId(self.next_transfer_id | REMOTE_CONFIRMED_OPERATION_BIT)
    }

    /// Submits a transfer that the remote application confirms: its end is not published, and
    /// nothing is called for it.
    pub fn submit_transfer_remote_confirmed<C, A>(&mut self, request: TransferRequest) -> (submitted:
        Result<Submission<C, A>, FabricLibError>)
        requires
            old(self).wf(),
        ensures
            final(self).wf(),
            old(self).transfer_submitted(
                final(self),
                old(self).confirmed_id(),
                &request,
                None,
                submitted,
            ),
            final(self).callbacks@ == old(self).callbacks@,
    {
        let id = self.assign_transfer_id();
        let transfer_id = TransferId(id.0 | REMOTE_CONFIRMED_OPERATION_BIT);
        match self.engine.submit_transfer(transfer_id, request, None) {
            Ok((worker_index, command)) => Ok(Submission { transfer_id, worker_index, command }),
            Err(error) => Err(error),
        }
    }

    /// What a message is handed to its worker as, or why it is not.
    pub open spec fn message_submitted<C, A>(
        &self,
        worker_index: usize,
        id: TransferId,
        command: WorkerCommand<C, A>,
        submitted: Result<Submission<C, A>, FabricLibError>,
    ) -> bool {
        if worker_index < self.engine.workers@.len() {
            submitted == Ok::<Submission<C, A>, FabricLibError>(
                (Submission { transfer_id: id, worker_index, command }),
            )
        } else {
            submitted == Err::<Submission<C, A>, FabricLibError>(
                FabricLibError::Custom("Worker index is out of range"),
            )
        }
    }

    /// Sends a message that the remote application confirms: its end is not published, and
    /// nothing is called for it.
    pub fn submit_send_remote_confirmed_on<C, A>(
        &mut self,
        worker_index: usize,
        addr: DomainAddress,
        buffer: SendBuffer,
    ) -> (submitted: Result<Submission<C, A>, FabricLibError>)
        requires
            old(self).wf(),
        ensures
            final(self).wf(),
            final(self).same_engine(old(self)),
            final(self).next_transfer_id == old(self).next_transfer_id.wrapping_add(1),
            final(self).callbacks@ == old(self).callbacks@,
            old(self).message_submitted(
                worker_index,
                old(self).confirmed_id(),
                WorkerCommand::<C, A>::SubmitSend {
                    transfer_id: old(self).confirmed_id(),
                    mr: buffer.mr_handle,
                    ptr: buffer.ptr,
                    len: buffer.len,
                    addr,
                    coalescible: buffer.coalescible,
                },
                submitted,
            ),
    {
        let id = self.assign_transfer_id();
        let transfer_id = TransferId(id.0 | REMOTE_CONFIRMED_OPERATION_BIT);
        match self.engine.submit_send_on(
            worker_index,
            transfer_id,
            addr,
            buffer.mr_handle,
            buffer.ptr,
            buffer.len,
            buffer.coalescible,
        ) {
            Ok(command) => Ok(Submission { transfer_id, worker_index, command }),
            Err(error) => Err(error),
        }
    }

    /// Sends a message through the first worker that the remote application confirms.
    pub fn submit_send_remote_confirmed<C, A>(
        &mut self,
        addr: DomainAddress,
        buffer: SendBuffer,
    ) -> (submitted: Result<Submission<C, A>, FabricLibError>)
        requires
            old(self).wf(),
        ensures
            final(self).wf(),
            final(self).same_engine(old(self)),
            final(self).next_transfer_id == old(self).next_transfer_id.wrapping_add(1),
            final(self).callbacks@ == old(self).callbacks@,
            old(self).message_submitted(
                0,
                old(self).confirmed_id(),
                WorkerCommand::<C, A>::SubmitSend {
                    transfer_id: old(self).confirmed_id(),
                    mr: buffer.mr_handle,
                    ptr: buffer.ptr,
                    len: buffer.len,
                    addr,
                    coalescible: buffer.coalescible,
                },
                submitted,
            ),
    {
        self.submit_send_remote_confirmed_on(0, addr, buffer)
    }

    /// Sends a message; the function is called with its result.
    pub fn submit_send_on<C, A>(
        &mut self,
        worker_index: usize,
        addr: DomainAddress,
        buffer: SendBuffer,
        callback: CallbackId,
    ) -> (submitted: Result<Submission<C, A>, FabricLibError>)
        requires
            old(self).wf(),
        ensures
            final(self).wf(),
            final(self).same_engine(old(self)),
            final(self).next_transfer_id == old(self).next_transfer_id.wrapping_add(1),
            final(self).callbacks@ == (CallbackTables {
                send_ops: if submitted is Ok {
                    old(self).callbacks@.send_ops.insert(
                        old(self).next_transfer_id,
                        CallbackEntry::Send(callback),
                    )
                } else {
                    old(self).callbacks@.send_ops.remove(old(self).next_transfer_id)
                },
                ..old(self).callbacks@
            }),
            submitted matches Ok(submission) ==> submission.transfer_id.0 >= 0x8000_0000_0000_0000
                || final(self).callbacks@.completed(
                TransferCompletionEntry::Send(submission.transfer_id),
            ).1 == Action::Finish(callback, None),
            old(self).message_submitted(
                worker_index,
                TransferId(old(self).next_transfer_id),
                WorkerCommand::<C, A>::SubmitSend {
                    transfer_id: TransferId(old(self).next_transfer_id),
                    mr: buffer.mr_handle,
                    ptr: buffer.ptr,
                    len: buffer.len,
                    addr,
                    coalescible: buffer.coalescible,
                },
                submitted,
            ),
    {
        let ghost before = *self;
        let transfer_id = self.assign_transfer_id();
        put_callback(
            &mut self.callbacks.send_ops,
            transfer_id.0,
            CallbackEntry::Send(callback),
        );
        match self.engine.submit_send_on(
            worker_index,
            transfer_id,
            addr,
            buffer.mr_handle,
            buffer.ptr,
            buffer.len,
            buffer.coalescible,
        ) {
            Ok(command) => {
                proof {
                    lemma_confirmed_is_high(transfer_id);
                }
                Ok(Submission { transfer_id, worker_index, command })
            },
            Err(error) => {
                take_callback(&mut self.callbacks.send_ops, transfer_id.0);
                proof {
                    assert(self.callbacks@.send_ops =~= before.callbacks@.send_ops.remove(
                        transfer_id.0,
                    ));
                }
                Err(error)
            },
        }
    }

    /// Receives messages, again and again; one function is called with the length of each, and
    /// another if the receive fails.
    pub fn submit_recv_on<C, A>(
        &mut self,
        worker_index: usize,
        mr: MemoryRegionHandle,
        ptr: u64,
        len: usize,
        on_recv: CallbackId,
        on_error: CallbackId,
    ) -> (submitted: Result<Submission<C, A>, FabricLibError>)
        requires
            old(self).wf(),
        ensures
            final(self).wf(),
            final(self).same_engine(old(self)),
            final(self).next_transfer_id == old(self).next_transfer_id.wrapping_add(1),
            final(self).callbacks@ == (CallbackTables {
                recv_ops: if submitted is Ok {
                    old(self).callbacks@.recv_ops.insert(
                        old(self).next_transfer_id,
                        CallbackEntry::Recv(
                            RecvContext { worker_index, mr, ptr, len, on_recv, on_error },
                        ),
                    )
                } else {
                    old(self).callbacks@.recv_ops.remove(old(self).next_transfer_id)
                },
                ..old(self).callbacks@
            }),
            submitted matches Ok(submission) ==> forall|data_len: usize|
                (#[trigger] final(self).callbacks@.completed(
                    TransferCompletionEntry::Recv {
                        transfer_id: submission.transfer_id,
                        data_len,
                    },
                )).1 matches Action::Receive(id, length, context) && id == submission.transfer_id
                    && length == data_len && context.on_recv == on_recv && context.on_error
                    == on_error && context.ptr == ptr && context.len == len && context.mr == mr
                    && context.worker_index == worker_index,
            old(self).message_submitted(
                worker_index,
                TransferId(old(self).next_transfer_id),
                WorkerCommand::<C, A>::SubmitRecv {
                    transfer_id: TransferId(old(self).next_transfer_id),
                    mr,
                    ptr,
                    len,
                },
                submitted,
            ),
    {
        let ghost before = *self;
        let transfer_id = self.assign_transfer_id();
        put_callback(
            &mut self.callbacks.recv_ops,
            transfer_id.0,
            CallbackEntry::Recv(RecvContext { worker_index, mr, ptr, len, on_recv, on_error }),
        );
        match self.engine.submit_recv_on(worker_index, transfer_id, mr, ptr, len) {
            Ok(command) => Ok(Submission { transfer_id, worker_index, command }),
            Err(error) => {
                take_callback(&mut self.callbacks.recv_ops, transfer_id.0);
                proof {
                    assert(self.callbacks@.recv_ops =~= before.callbacks@.recv_ops.remove(
                        transfer_id.0,
                    ));
                }
                Err(error)
            },
        }
    }

    /// Sends a message through the first worker; the function is called with its result.
    pub fn submit_send<C, A>(
        &mut self,
        addr: DomainAddress,
        buffer: SendBuffer,
        callback: CallbackId,
    ) -> (submitted: Result<Submission<C, A>, FabricLibError>)
        requires
            old(self).wf(),
        ensures
            final(self).wf(),
            final(self).same_engine(old(self)),
            final(self).next_transfer_id == old(self).next_transfer_id.wrapping_add(1),
            final(self).callbacks@ == (CallbackTables {
                send_ops: old(self).callbacks@.send_ops.insert(
                    old(self).next_transfer_id,
                    CallbackEntry::Send(callback),
                ),
                ..old(self).callbacks@
            }),
            submitted == Ok::<Submission<C, A>, FabricLibError>(
                (Submission {
                    transfer_id: TransferId(old(self).next_transfer_id),
                    worker_index: 0,
                    command: WorkerCommand::<C, A>::SubmitSend {
                        transfer_id: TransferId(old(self).next_transfer_id),
                        mr: buffer.mr_handle,
                        ptr: buffer.ptr,
                        len: buffer.len,
                        addr,
                        coalescible: buffer.coalescible,
                    },
                }),
            ),
    {
        self.submit_send_on(0, addr, buffer, callback)
    }

    /// Receives messages through the first worker.
    pub fn submit_recv<C, A>(
        &mut self,
        mr: MemoryRegionHandle,
        ptr: u64,
        len: usize,
        on_recv: CallbackId,
        on_error: CallbackId,
    ) -> (submitted: Result<Submission<C, A>, FabricLibError>)
        requires
            old(self).wf(),
        ensures
            final(self).wf(),
            final(self).same_engine(old(self)),
            final(self).next_transfer_id == old(self).next_transfer_id.wrapping_add(1),
            final(self).callbacks@ == (CallbackTables {
                recv_ops: old(self).callbacks@.recv_ops.insert(
                    old(self).next_transfer_id,
                    CallbackEntry::Recv(
                        RecvContext { worker_index: 0, mr, ptr, len, on_recv, on_error },
                    ),
                ),
                ..old(self).callbacks@
            }),
            submitted == Ok::<Submission<C, A>, FabricLibError>(
                (Submission {
                    transfer_id: TransferId(old(self).next_transfer_id),
                    worker_index: 0,
                    command: WorkerCommand::<C, A>::SubmitRecv {
                        transfer_id: TransferId(old(self).next_transfer_id),
                        mr,
                        ptr,
                        len,
                    },
                }),
            ),
    {
        self.submit_recv_on(0, mr, ptr, len, on_recv, on_error)
    }

    /// Takes the answer of a function that was called because a message arrived: the receive is
    /// submitted again, under its id and as it was, only if the function has succeeded.
    pub fn message_answered<C, A>(&self, transfer_id: TransferId, answer: Result<(), String>) -> (
    next: AfterMessage<C, A>)
        requires
            self.wf(),
        ensures
            match answer {
                Err(text) => next == AfterMessage::<C, A>::Stop(text),
                Ok(_) => if !self.callbacks@.recv_ops.contains_key(transfer_id.0) {
                    next == AfterMessage::<C, A>::Nothing
                } else {
                    let context = self.callbacks@.recv_ops[transfer_id.0]->Recv_0;
                    if context.worker_index < self.engine.workers@.len() {
                        next == AfterMessage::ReceiveAgain(
                            (Submission {
                                transfer_id,
                                worker_index: context.worker_index,
                                command: WorkerCommand::<C, A>::SubmitRecv {
                                    transfer_id,
                                    mr: context.mr,
                                    ptr: context.ptr,
                                    len: context.len,
                                },
                            }),
                        )
                    } else {
                        next == AfterMessage::<C, A>::Refused(
                            FabricLibError::Custom("Worker index is out of range"),
                        )
                    }
                },
            },
    {
        let again = self.callbacks.recv_answered(transfer_id, &answer);
        match (answer, again) {
            (Err(text), _) => AfterMessage::Stop(text),
            (Ok(_), None) => AfterMessage::Nothing,
            (Ok(_), Some(context)) => match self.engine.submit_recv_on(
                context.worker_index,
                transfer_id,
                context.mr,
                context.ptr,
                context.len,
            ) {
                Ok(command) => AfterMessage::ReceiveAgain(
                    Submission { transfer_id, worker_index: context.worker_index, command },
                ),
                Err(error) => AfterMessage::Refused(error),
            },
        }
    }

    /// Forgets an operation that could not be handed to its worker.
    pub fn withdraw<C, A>(&mut self, command: &WorkerCommand<C, A>)
        requires
            old(self).wf(),
        ensures
            final(self).wf(),
            final(self).same_engine(old(self)),
            final(self).next_transfer_id == old(self).next_transfer_id,
            final(self).callbacks@ == without_operation(old(self).callbacks@, *command),
    {
        match command {
            WorkerCommand::SubmitTransfer { transfer_id, .. } => {
                take_callback(&mut self.callbacks.transfer_ops, transfer_id.0);
            },
            WorkerCommand::SubmitSend { transfer_id, .. } => {
                take_callback(&mut self.callbacks.send_ops, transfer_id.0);
            },
            WorkerCommand::SubmitRecv { transfer_id, .. } => {
                take_callback(&mut self.callbacks.recv_ops, transfer_id.0);
            },
            WorkerCommand::SubmitWriteBatches(_) => {},
        }
    }

    /// Finds out what is to be done about a completion.
    pub fn handle_transfer_completion(&mut self, completion: TransferCompletionEntry) -> (action:
        CompletionAction)
        requires
            old(self).wf(),
        ensures
            final(self).wf(),
            final(self).same_engine(old(self)),
            final(self).next_transfer_id == old(self).next_transfer_id,
            (final(self).callbacks@, action@) == old(self).callbacks@.completed(completion),
    {
        self.callbacks.complete(completion)
    }

    /// Marks the engine as stopped.
    pub fn stop(&mut self)
        ensures
            final(self).engine == (FabricEngine { stopped: true, ..old(self).engine }),
            final(self).next_transfer_id == old(self).next_transfer_id,
            final(self).callbacks == old(self).callbacks,
    {
        self.engine.stop();
    }
}

/// Tables in which nobody waits for anything.
pub open spec fn empty_tables() -> CallbackTables {
    CallbackTables {
        imm: Seq::empty(),
        recv_ops: Map::empty(),
        send_ops: Map::empty(),
        transfer_ops: Map::empty(),
        imm_count: Map::empty(),
        watchers: Map::empty(),
    }
}

/// The tables once nobody waits any more for the operation that a command is for.
pub open spec fn without_operation<C, A>(
    tables: CallbackTables,
    command: WorkerCommand<C, A>,
) -> CallbackTables {
    match command {
        WorkerCommand::SubmitTransfer { transfer_id, .. } => CallbackTables {
            transfer_ops: tables.transfer_ops.remove(transfer_id.0),
            ..tables
        },
        WorkerCommand::SubmitSend { transfer_id, .. } => CallbackTables {
            send_ops: tables.send_ops.remove(transfer_id.0),
            ..tables
        },
        WorkerCommand::SubmitRecv { transfer_id, .. } => CallbackTables {
            recv_ops: tables.recv_ops.remove(transfer_id.0),
            ..tables
        },
        WorkerCommand::SubmitWriteBatches(_) => tables,
    }
}

/// Withdrawing a transfer undoes its submission, if its id was not in use.
pub proof fn withdrawal_undoes_submission<C, A>(
    before: &TransferEngine,
    after: &TransferEngine,
    entry: CallbackEntry,
    command: WorkerCommand<C, A>,
)
    requires
        before.transfer_entered(after, entry, true),
        !before.callbacks@.transfer_ops.contains_key(before.next_transfer_id),
        command matches WorkerCommand::SubmitTransfer { transfer_id, .. } && transfer_id.0
            == before.next_transfer_id,
    ensures
        without_operation(after.callbacks@, command) == before.callbacks@,
{
    assert(without_operation(after.callbacks@, command).transfer_ops
        =~= before.callbacks@.transfer_ops);
}

/// Nobody is called any more for an operation that has been withdrawn, and everybody else waits
/// on.
pub proof fn withdrawn_operations_call_nothing<C, A>(
    tables: CallbackTables,
    command: WorkerCommand<C, A>,
    data_len: usize,
    other: u64,
)
    requires
        tables.wf(),
    ensures
        ({
            let after = without_operation(tables, command);
            &&& after.imm == tables.imm
            &&& after.imm_count == tables.imm_count
            &&& after.watchers == tables.watchers
            &&& match command {
                WorkerCommand::SubmitTransfer { transfer_id, .. } => {
                    &&& after.completed(TransferCompletionEntry::Transfer(transfer_id)).1 is Nothing
                    &&& after.send_ops == tables.send_ops
                    &&& after.recv_ops == tables.recv_ops
                    &&& other != transfer_id.0 && tables.transfer_ops.contains_key(other)
                        ==> after.transfer_ops.contains_key(other) && after.transfer_ops[other]
                        == tables.transfer_ops[other]
                },
                WorkerCommand::SubmitSend { transfer_id, .. } => {
                    &&& after.completed(TransferCompletionEntry::Send(transfer_id)).1 is Nothing
                    &&& after.transfer_ops == tables.transfer_ops
                    &&& after.recv_ops == tables.recv_ops
                    &&& other != transfer_id.0 && tables.send_ops.contains_key(other)
                        ==> after.send_ops.contains_key(other) && after.send_ops[other]
                        == tables.send_ops[other]
                },
                WorkerCommand::SubmitRecv { transfer_id, .. } => {
                    &&& after.completed(
                        TransferCompletionEntry::Recv { transfer_id, data_len },
                    ).1 is Nothing
                    &&& after.transfer_ops == tables.transfer_ops
                    &&& after.send_ops == tables.send_ops
                    &&& other != transfer_id.0 && tables.recv_ops.contains_key(other)
                        ==> after.recv_ops.contains_key(other) && after.recv_ops[other]
                        == tables.recv_ops[other]
                },
                WorkerCommand::SubmitWriteBatches(_) => after == tables,
            }
        }),
{
}

/// Whoever submits a transfer that is accepted is called when it is over, with its success or
/// its failure, unless its id is one of those that the remote application confirms.
pub proof fn accepted_transfer_is_called_back(
    before: &TransferEngine,
    after: &TransferEngine,
    entry: CallbackEntry,
    error: FabricLibError,
)
    requires
        before.transfer_entered(after, entry, true),
        !TransferId(before.next_transfer_id).remote_confirmed(),
    ensures
        ({
            let id = TransferId(before.next_transfer_id);
            &&& after.callbacks@.completed(TransferCompletionEntry::Transfer(id)).1 == done_action(
                entry,
            )
            &&& after.callbacks@.completed(TransferCompletionEntry::Error(id, error)).1
                == failed_action(entry, error)
            &&& match entry {
                CallbackEntry::Split(two) => {
                    &&& after.callbacks@.completed(TransferCompletionEntry::Transfer(id)).1
                        == Action::Done(two.on_done)
                    &&& after.callbacks@.completed(TransferCompletionEntry::Error(id, error)).1
                        == Action::Fail(two.on_error, error)
                },
                CallbackEntry::Result(one) => {
                    &&& after.callbacks@.completed(TransferCompletionEntry::Transfer(id)).1
                        == Action::Finish(one, None)
                    &&& after.callbacks@.completed(TransferCompletionEntry::Error(id, error)).1
                        == Action::Finish(one, Some(error))
                },
                _ => true,
            }
        }),
{
}

/// A transfer that is accepted has an id that no transfer before it had, as long as not all ids
/// have been given out, and its command carries this id to the worker; the next one has the id
/// after it.
pub proof fn ids_are_given_out_in_turn<C, A>(
    before: TransferEngine,
    after: TransferEngine,
    id: TransferId,
    request: TransferRequest,
    counter: Option<C>,
    submitted: Result<Submission<C, A>, FabricLibError>,
)
    requires
        before.wf(),
        before.transfer_submitted(&after, id, &request, counter, submitted),
    ensures
        before.next_transfer_id < u64::MAX ==> after.next_transfer_id == before.next_transfer_id
            + 1,
        submitted matches Ok(submission) ==> {
            &&& submission.transfer_id == id
            &&& submission.worker_index < before.engine.workers@.len()
            &&& submission.command matches WorkerCommand::SubmitTransfer {
                transfer_id,
                request: sent,
                tx_counter,
                admission,
            } && transfer_id == id && tx_counter == counter && admission is None && same_errand(
                request,
                sent,
            )
        },
{
    if let Ok(submission) = submitted {
        routed_transfers_keep_their_errand(
            before.engine,
            after.engine,
            id,
            request,
            counter,
            submission.worker_index,
            submission.command,
        );
    }
}

/// Whoever waits for a message is called: the sender once, with its success or its failure, and
/// the receiver with the length of each message, after which it still waits.
pub proof fn waiting_messages_are_called_back(
    tables: CallbackTables,
    sent: TransferId,
    callback: CallbackId,
    received: TransferId,
    context: RecvContext,
    data_len: usize,
    error: FabricLibError,
)
    requires
        !sent.remote_confirmed(),
        tables.send_ops.contains_key(sent.0),
        tables.send_ops[sent.0] == CallbackEntry::Send(callback),
        !tables.transfer_ops.contains_key(sent.0),
        tables.recv_ops.contains_key(received.0),
        tables.recv_ops[received.0] == CallbackEntry::Recv(context),
    ensures
        tables.completed(TransferCompletionEntry::Send(sent)).1 == Action::Finish(callback, None),
        tables.completed(TransferCompletionEntry::Error(sent, error)).1 == Action::Finish(
            callback,
            Some(error),
        ),
        tables.completed(TransferCompletionEntry::Recv { transfer_id: received, data_len }) == (
            tables,
            Action::Receive(received, data_len, context),
        ),
{
}

/// The ids of operations that the remote application confirms are told from all others, as long
/// as fewer ids have been given out than there are of either.
pub proof fn confirmed_ids_are_told_apart(next: u64, other: u64)
    requires
        next < REMOTE_CONFIRMED_OPERATION_BIT,
        other < REMOTE_CONFIRMED_OPERATION_BIT,
    ensures
        TransferId(next | REMOTE_CONFIRMED_OPERATION_BIT).remote_confirmed(),
        !TransferId(other).remote_confirmed(),
        next != other ==> TransferId(next | REMOTE_CONFIRMED_OPERATION_BIT) != TransferId(
            other | REMOTE_CONFIRMED_OPERATION_BIT,
        ),
{
    let bit: u64 = REMOTE_CONFIRMED_OPERATION_BIT;
    assert((next | bit) & bit != 0) by (bit_vector)
        requires
            bit == 0x8000_0000_0000_0000u64,
    ;
    assert(other & bit == 0) by (bit_vector)
        requires
            bit == 0x8000_0000_0000_0000u64,
            other < 0x8000_0000_0000_0000u64,
    ;
    assert(next != other ==> (next | bit) != (other | bit)) by (bit_vector)
        requires
            bit == 0x8000_0000_0000_0000u64,
            next < 0x8000_0000_0000_0000u64,
            other < 0x8000_0000_0000_0000u64,
    ;
}

/// A new engine exists exactly if it has workers, all alike if it is to stripe host memory, and if
/// its threads can be placed. It has one thread for each worker if it stripes and one if it does
/// not. Nobody waits for anything yet, and the first operation is given the id 0.
pub proof fn new_engine_waits_for_nothing(
    workers: Seq<(u8, WorkerHandle)>,
    policy: CompletionCpuPolicy,
    polling: Seq<PollingMode>,
    host_striped: bool,
    made: Result<(TransferEngine, Vec<CompletionThread>), FabricLibError>,
)
    requires
        TransferEngine::made(workers, &policy, polling, host_striped, made),
    ensures
        workers.len() == 0 ==> made is Err,
        host_striped && (exists|i: int|
            #![trigger workers[i]]
            0 <= i < workers.len() && workers[i].1.address_list@.len()
                != workers[0].1.address_list@.len()) ==> made is Err,
        made matches Ok((transfers, threads)) ==> {
            &&& transfers.next_transfer_id == 0
            &&& transfers.engine.main_address@ == workers[0].1.address_list@[0]@
            &&& transfers.engine.num_groups == workers.len()
            &&& transfers.engine.host_striped == host_striped
            &&& !transfers.engine.stopped
            &&& transfers.callbacks@.imm.len() == 0
            &&& forall|id: u64|
                !#[trigger] transfers.callbacks@.transfer_ops.contains_key(id)
                    && !transfers.callbacks@.send_ops.contains_key(id)
                    && !transfers.callbacks@.recv_ops.contains_key(id)
                    && !transfers.callbacks@.imm_count.contains_key(id)
                    && !transfers.callbacks@.watchers.contains_key(id)
            &&& !host_striped ==> threads@.len() == 1
            &&& host_striped ==> threads@.len() == transfers.engine.workers@.len()
            &&& forall|i: int|
                #![trigger threads@[i]]
                0 <= i < threads@.len() ==> {
                    &&& threads@[i].worker_index == if host_striped {
                        Some(i as usize)
                    } else {
                        None
                    }
                    &&& threads@[i].polling_mode == if i < polling.len() {
                        polling[i]
                    } else {
                        PollingMode::Busy
                    }
                    &&& match policy {
                        CompletionCpuPolicy::Strided(None) => threads@[i].cpu is None,
                        CompletionCpuPolicy::Strided(Some(cpu)) => threads@[i].cpu matches Some(own)
                            && own == cpu + 3 * i,
                        CompletionCpuPolicy::Exact(cpus) => threads@[i].cpu == cpus@[i],
                    }
                }
        },
{
    if let Ok((transfers, threads)) = made {
        engine_has_what_its_workers_have(transfers.engine, workers, host_striped);
        assert forall|i: int| #![trigger threads@[i]] 0 <= i < threads@.len() implies {
            &&& threads@[i] == thread_of(&policy, polling, host_striped, i)
            &&& match policy {
                CompletionCpuPolicy::Strided(None) => threads@[i].cpu is None,
                CompletionCpuPolicy::Strided(Some(cpu)) => threads@[i].cpu matches Some(own) && own
                    == cpu + 3 * i,
                CompletionCpuPolicy::Exact(cpus) => threads@[i].cpu == cpus@[i],
            }
        } by {
            threads_stand_where_they_are_put(
                policy,
                polling,
                host_striped,
                threads@.len() as int,
                i,
            );
        }
    }
}

/// The id of an operation that the other side confirms is the next id, moved up by 2^63: no other
/// operation has it, its success is told to nobody, and its failure calls nobody.
pub proof fn confirmed_operations_call_nobody(
    engine: TransferEngine,
    other: u64,
    tables: CallbackTables,
    error: FabricLibError,
)
    requires
        engine.next_transfer_id < 0x8000_0000_0000_0000,
        other < 0x8000_0000_0000_0000,
    ensures
        engine.confirmed_id().0 == engine.next_transfer_id + 0x8000_0000_0000_0000,
        engine.confirmed_id() != TransferId(other),
        published_as(DomainCompletionEntry::Transfer(engine.confirmed_id())) is None,
        published_as(DomainCompletionEntry::Send(engine.confirmed_id())) is None,
        tables.completed(TransferCompletionEntry::Error(engine.confirmed_id(), error)) == (
            tables,
            Action::Nothing,
        ),
{
    let (next, bit) = (engine.next_transfer_id, REMOTE_CONFIRMED_OPERATION_BIT);
    assert((next | bit) == next + 0x8000_0000_0000_0000u64) by (bit_vector)
        requires
            bit == 0x8000_0000_0000_0000u64,
            next < 0x8000_0000_0000_0000u64,
    ;
    lemma_confirmed_is_high(engine.confirmed_id());
}

/// A transfer that was refused is called back by nothing, one that was accepted waits under its
/// id; nobody else waits for less or for more than before.
pub proof fn only_accepted_transfers_wait(
    before: TransferEngine,
    after: TransferEngine,
    entry: CallbackEntry,
    accepted: bool,
    other: u64,
)
    requires
        before.transfer_entered(&after, entry, accepted),
        other != before.next_transfer_id,
    ensures
        accepted ==> after.callbacks@.transfer_ops.contains_key(before.next_transfer_id)
            && after.callbacks@.transfer_ops[before.next_transfer_id] == entry,
        !accepted ==> !after.callbacks@.transfer_ops.contains_key(before.next_transfer_id),
        after.callbacks@.transfer_ops.contains_key(other)
            <==> before.callbacks@.transfer_ops.contains_key(other),
        before.callbacks@.transfer_ops.contains_key(other)
            ==> after.callbacks@.transfer_ops[other] == before.callbacks@.transfer_ops[other],
        after.callbacks@.send_ops == before.callbacks@.send_ops,
        after.callbacks@.recv_ops == before.callbacks@.recv_ops,
        after.callbacks@.imm == before.callbacks@.imm,
        after.callbacks@.imm_count == before.callbacks@.imm_count,
        after.callbacks@.watchers == before.callbacks@.watchers,
{
}

} // verus!
