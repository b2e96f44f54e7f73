//! The steps of a worker's loop.
use vstd::prelude::*;

use crate::api::{
    REMOTE_CONFIRMED_OPERATION_BIT, TransferCompletionEntry, TransferId, TransferRequest,
    WriteBatchRequest,
};
use crate::domain_group::completion::searched;
use crate::domain_group::{DomainGroup, peer_bytes};
use crate::error::FabricLibError;
use crate::provider::{DomainCompletionEntry, RdmaDomain};
use crate::worker::{WorkerCall, WorkerCommand, WorkerReply};

verus! {

/// How many commands a worker takes before it looks for completions.
pub const COMMANDS_PER_STEP: usize = 64;

/// A completion as it is published: the success of an operation that the remote application
/// confirms is not.
pub open spec fn published_as(entry: DomainCompletionEntry) -> Option<TransferCompletionEntry> {
    match entry {
        DomainCompletionEntry::Recv { transfer_id, data_len } => Some(
            TransferCompletionEntry::Recv { transfer_id, data_len },
        ),
        DomainCompletionEntry::Send(transfer_id) => if transfer_id.remote_confirmed() {
            None
        } else {
            Some(TransferCompletionEntry::Send(transfer_id))
        },
        DomainCompletionEntry::Transfer(transfer_id) => if transfer_id.remote_confirmed() {
            None
        } else {
            Some(TransferCompletionEntry::Transfer(transfer_id))
        },
        DomainCompletionEntry::ImmData(imm) => Some(TransferCompletionEntry::ImmData(imm)),
        DomainCompletionEntry::Immediate(event) => Some(TransferCompletionEntry::Immediate(event)),
        DomainCompletionEntry::ImmCountReached(imm) => Some(
            TransferCompletionEntry::ImmCountReached(imm),
        ),
        DomainCompletionEntry::Error(transfer_id, error) => Some(
            TransferCompletionEntry::Error(transfer_id, error),
        ),
    }
}

/// Turns a domain's completion into what is published of it.
pub fn publish(entry: DomainCompletionEntry) -> (published: Option<TransferCompletionEntry>)
    ensures
        published == published_as(entry),
{
    match entry {
        DomainCompletionEntry::Recv { transfer_id, data_len } => Some(
            TransferCompletionEntry::Recv { transfer_id, data_len },
        ),
        DomainCompletionEntry::Send(transfer_id) => {
            if transfer_id.is_remote_confirmed() {
                None
            } else {
                Some(TransferCompletionEntry::Send(transfer_id))
            }
        },
        DomainCompletionEntry::Transfer(transfer_id) => {
            if transfer_id.is_remote_confirmed() {
                None
            } else {
                Some(TransferCompletionEntry::Transfer(transfer_id))
            }
        },
        DomainCompletionEntry::ImmData(imm) => Some(TransferCompletionEntry::ImmData(imm)),
        DomainCompletionEntry::Immediate(event) => Some(TransferCompletionEntry::Immediate(event)),
        DomainCompletionEntry::ImmCountReached(imm) => Some(
            TransferCompletionEntry::ImmCountReached(imm),
        ),
        DomainCompletionEntry::Error(transfer_id, error) => Some(
            TransferCompletionEntry::Error(transfer_id, error),
        ),
    }
}

/// Everything is published but the success of operations that the remote application confirms;
/// their failures are.
pub proof fn only_confirmed_success_is_silent(entry: DomainCompletionEntry)
    ensures
        published_as(entry) is None <==> match entry {
            DomainCompletionEntry::Send(id) => id.remote_confirmed(),
            DomainCompletionEntry::Transfer(id) => id.remote_confirmed(),
            _ => false,
        },
{
}

/// What is published says the same as the completion: it is of the same kind, of the same
/// operation or immediate, and with the same particulars.
pub open spec fn says_the_same(
    entry: DomainCompletionEntry,
    published: TransferCompletionEntry,
) -> bool {
    match (published, entry) {
        (
            TransferCompletionEntry::Recv { transfer_id, data_len },
            DomainCompletionEntry::Recv { transfer_id: id, data_len: len },
        ) => transfer_id == id && data_len == len,
        (TransferCompletionEntry::Send(id), DomainCompletionEntry::Send(of)) => id == of,
        (TransferCompletionEntry::Transfer(id), DomainCompletionEntry::Transfer(of)) => id == of,
        (TransferCompletionEntry::ImmData(imm), DomainCompletionEntry::ImmData(of)) => imm == of,
        (TransferCompletionEntry::Immediate(event), DomainCompletionEntry::Immediate(of)) => {
            event.imm_data == of.imm_data && event.byte_len == of.byte_len
        },
        (
            TransferCompletionEntry::ImmCountReached(imm),
            DomainCompletionEntry::ImmCountReached(of),
        ) => imm == of,
        (TransferCompletionEntry::Error(id, error), DomainCompletionEntry::Error(of, given)) => id
            == of && error == given,
        _ => false,
    }
}

/// Whatever is published of a completion says the same as the completion, and the only
/// completions that are not published are successes that the remote application confirms.
pub proof fn publication_keeps_the_completion(entry: DomainCompletionEntry)
    ensures
        match published_as(entry) {
            Some(published) => says_the_same(entry, published),
            None => match entry {
                DomainCompletionEntry::Send(id) => id.0 >= 0x8000_0000_0000_0000,
                DomainCompletionEntry::Transfer(id) => id.0 >= 0x8000_0000_0000_0000,
                _ => false,
            },
        },
        published_as(entry) matches Some(published) ==> match published {
            TransferCompletionEntry::Send(id) => id.0 < 0x8000_0000_0000_0000,
            TransferCompletionEntry::Transfer(id) => id.0 < 0x8000_0000_0000_0000,
            _ => true,
        },
{
    match entry {
        DomainCompletionEntry::Send(id) => {
            lemma_confirmed_is_high(id);
        },
        DomainCompletionEntry::Transfer(id) => {
            lemma_confirmed_is_high(id);
        },
        _ => {},
    }
}

/// The ids of operations that the remote application confirms are those in the upper half.
pub proof fn lemma_confirmed_is_high(id: TransferId)
    ensures
        id.remote_confirmed() <==> id.0 >= 0x8000_0000_0000_0000,
{
    let (word, bit) = (id.0, REMOTE_CONFIRMED_OPERATION_BIT);
    assert((word & bit != 0) == (word >= 0x8000_0000_0000_0000u64)) by (bit_vector)
        requires
            bit == 0x8000_0000_0000_0000u64,
    ;
}

/// What a search for a completion leads to.
#[derive(Debug)]
pub enum Progress {
    /// Nothing: there is no completion.
    Nothing,
    /// A completion that is not published.
    Silent,
    Publish(TransferCompletionEntry),
}

/// What a report of a group leads to.
pub open spec fn progress_of(report: Option<DomainCompletionEntry>) -> Progress {
    match report {
        None => Progress::Nothing,
        Some(entry) => match published_as(entry) {
            None => Progress::Silent,
            Some(published) => Progress::Publish(published),
        },
    }
}

/// What is published of reports, in order.
pub open spec fn published_of(reports: Seq<Option<DomainCompletionEntry>>) -> Seq<
    TransferCompletionEntry,
>
    decreases reports.len(),
{
    if reports.len() == 0 {
        Seq::empty()
    } else {
        let before = published_of(reports.drop_last());
        match progress_of(reports.last()) {
            Progress::Publish(entry) => before.push(entry),
            _ => before,
        }
    }
}

/// What came of searching for completions until there was none.
#[derive(Debug)]
pub struct DrainedProgress {
    pub published: Vec<TransferCompletionEntry>,
    /// Whether there was a completion.
    pub active: bool,
    /// Whether the last search found none. Otherwise as many searches as a word can count have
    /// each found one.
    pub finished: bool,
}

impl<D: RdmaDomain, C, A, const N: usize> DomainGroup<D, C, A, N> {
    /// Searches with these reports have led through `states`, each but the last with a report.
    pub open spec fn drained(
        &self,
        before: &Self,
        states: Seq<Self>,
        reports: Seq<Option<DomainCompletionEntry>>,
        drained: DrainedProgress,
    ) -> bool {
        &&& searched(states, reports)
        &&& states[0] == *before
        &&& states.last() == *self
        &&& reports.len() > 0
        &&& forall|i: int| #![trigger reports[i]] 0 <= i < reports.len() - 1 ==> reports[i] is Some
        &&& drained.finished == (reports.last() is None)
        &&& !drained.finished ==> reports.len() == usize::MAX
        &&& drained.published@ == published_of(reports)
        &&& drained.active == exists|i: int|
            #![trigger reports[i]]
            0 <= i < reports.len() && reports[i] is Some
    }

    /// Searches for completions until there is none; what is to be published, in order.
    pub fn drain_progress(&mut self) -> (drained: DrainedProgress)
        requires
            old(self).wf(),
        ensures
            final(self).wf(),
            exists|states: Seq<Self>, reports: Seq<Option<DomainCompletionEntry>>|
                #[trigger] final(self).drained(old(self), states, reports, drained),
    {
        let mut published: Vec<TransferCompletionEntry> = Vec::new();
        let mut searches: usize = 0;
        let ghost mut states: Seq<Self> = seq![*self];
        let ghost mut reports: Seq<Option<DomainCompletionEntry>> = Seq::empty();
        while searches < usize::MAX
            invariant
                self.wf(),
                searches == reports.len(),
                searched(states, reports),
                states[0] == *old(self),
                states.last() == *self,
                forall|i: int|
                    #![trigger reports[i]]
                    0 <= i < reports.len() ==> reports[i] is Some,
                published@ == published_of(reports),
            decreases usize::MAX - searches,
        {
            let ghost before = *self;
            let ghost earlier = reports;
            let ghost so_far = states;
            let progress = self.next_progress();
            proof {
                let report = choose|report: Option<DomainCompletionEntry>|
                    #[trigger] self.reported(&before, report) && progress == progress_of(report);
                reports = reports.push(report);
                states = states.push(*self);
                assert(reports.drop_last() =~= earlier);
                assert forall|i: int| #![trigger reports[i]] 0 <= i < reports.len() implies states[i
                    + 1].reported(&states[i], reports[i]) by {
                    if i < earlier.len() {
                        assert(earlier[i] == reports[i]);
                        assert(states[i + 1] == so_far[i + 1]);
                    } else {
                        assert(states[i] == before);
                    }
                }
                assert forall|i: int|
                    #![trigger reports[i]]
                    0 <= i < reports.len() - 1 implies reports[i] is Some by {
                    assert(earlier[i] == reports[i]);
                }
            }
            match progress {
                Progress::Nothing => {
                    let active: bool = searches > 0;
                    let drained = DrainedProgress { published, active, finished: true };
                    proof {
                        if active {
                            assert(reports[0] is Some);
                        }
                        assert(self.drained(old(self), states, reports, drained));
                    }
                    return drained;
                },
                Progress::Silent => {},
                Progress::Publish(entry) => {
                    published.push(entry);
                },
            }
            searches = searches + 1;
        }
        let drained = DrainedProgress { published, active: true, finished: false };
        proof {
            assert(reports[0] is Some);
            assert(self.drained(old(self), states, reports, drained));
        }
        drained
    }

    /// Searches for a completion.
    pub fn next_progress(&mut self) -> (progress: Progress)
        requires
            old(self).wf(),
        ensures
            final(self).wf(),
            exists|report: Option<DomainCompletionEntry>|
                #[trigger] final(self).reported(old(self), report) && progress == progress_of(
                    report,
                ),
    {
        match self.get_completion() {
            None => Progress::Nothing,
            Some(entry) => match publish(entry) {
                None => Progress::Silent,
                Some(published) => Progress::Publish(published),
            },
        }
    }

    /// The group can answer the call.
    pub open spec fn answerable(&self, call: &WorkerCall) -> bool {
        match call {
            WorkerCall::AddPeerGroup { addrs } => self.peers_addable(addrs@),
            _ => true,
        }
    }

    /// What becomes of a call.
    pub open spec fn answered(&self, before: &Self, call: &WorkerCall, reply: WorkerReply) -> bool {
        match (call, reply) {
            (
                WorkerCall::RegisterMRLocal { region },
                WorkerReply::RegisteredLocal(registered),
            ) => self.local_registration(before, *region, registered),
            (
                WorkerCall::RegisterMRAllowRemote { region },
                WorkerReply::RegisteredRemote(registered),
            ) => self.remote_registration(before, *region, registered),
            (WorkerCall::UnregisterMR { ptr }, WorkerReply::Unregistered) => self.unregistered(
                before,
                *ptr,
            ),
            (WorkerCall::AddPeerGroup { addrs }, WorkerReply::PeerGroup(added)) => {
                self.peers_outcome(before, peer_bytes(addrs@), added)
            },
            _ => false,
        }
    }

    /// Whether the group can answer the call.
    pub fn can_answer(&self, call: &WorkerCall) -> (can: bool)
        requires
            self.wf(),
        ensures
            can == self.answerable(call),
    {
        match call {
            WorkerCall::AddPeerGroup { addrs } => self.can_add_peer_group(addrs),
            _ => true,
        }
    }

    /// Answers a call.
    pub fn answer(&mut self, call: WorkerCall) -> (reply: WorkerReply)
        requires
            old(self).wf(),
            old(self).answerable(&call),
        ensures
            final(self).wf(),
            final(self).answered(old(self), &call, reply),
    {
        match call {
            WorkerCall::RegisterMRLocal { region } => WorkerReply::RegisteredLocal(
                self.register_mr_local(&region),
            ),
            WorkerCall::RegisterMRAllowRemote { region } => WorkerReply::RegisteredRemote(
                self.register_mr_allow_remote(&region),
            ),
            WorkerCall::UnregisterMR { ptr } => {
                self.unregister_mr(ptr);
                WorkerReply::Unregistered
            },
            WorkerCall::AddPeerGroup { addrs } => WorkerReply::PeerGroup(
                self.add_peer_group(addrs),
            ),
        }
    }

    /// The group can obey the command.
    pub open spec fn obeyable(&self, command: &WorkerCommand<C, A>) -> bool {
        match command {
            WorkerCommand::SubmitWriteBatches(_) => true,
            WorkerCommand::SubmitTransfer { request, .. } => self.submittable(request),
            _ => N > 0,
        }
    }

    /// Whether the group can obey the command.
    pub fn can_obey(&self, command: &WorkerCommand<C, A>) -> (can: bool)
        ensures
            can == self.obeyable(command),
    {
        match command {
            WorkerCommand::SubmitWriteBatches(_) => true,
            WorkerCommand::SubmitTransfer { request, .. } => self.can_submit(request),
            _ => N > 0,
        }
    }

    /// What is published when a command is obeyed: the failure of each operation that was not
    /// accepted.
    pub open spec fn obeyed(
        &self,
        before: &Self,
        command: &WorkerCommand<C, A>,
        published: Seq<TransferCompletionEntry>,
    ) -> bool {
        match command {
            WorkerCommand::SubmitWriteBatches(batches) => exists|
                states: Seq<Self>,
                results: Seq<Result<(), FabricLibError>>,
            |
                {
                    &&& #[trigger] batches_submitted(states, batches@, results)
                    &&& states[0] == *before
                    &&& states.last() == *self
                    &&& published == batch_failures(batches@, results, results.len() as int)
                },
            WorkerCommand::SubmitTransfer { transfer_id, request, tx_counter, admission } => exists|
                result: Result<(), FabricLibError>,
            |
                {
                    &&& #[trigger] self.guarded(
                        before,
                        *transfer_id,
                        request,
                        *tx_counter,
                        *admission,
                        result,
                    )
                    &&& published == failure_of(*transfer_id, result)
                },
            WorkerCommand::SubmitSend { transfer_id, mr, ptr, len, addr, coalescible } => exists|
                result: Result<(), FabricLibError>,
            |
                {
                    &&& #[trigger] self.send_submitted(
                        before,
                        *transfer_id,
                        *mr,
                        *ptr,
                        *len,
                        addr@,
                        *coalescible,
                        result,
                    )
                    &&& published == failure_of(*transfer_id, result)
                },
            WorkerCommand::SubmitRecv { transfer_id, mr, ptr, len } => exists|
                result: Result<(), FabricLibError>,
            |
                {
                    &&& #[trigger] self.recv_submitted(
                        before,
                        *transfer_id,
                        *mr,
                        *ptr,
                        *len,
                        result,
                    )
                    &&& published == failure_of(*transfer_id, result)
                },
        }
    }

    /// Obeys a command; the failures to be published.
    pub fn obey(&mut self, command: WorkerCommand<C, A>) -> (published: Vec<
        TransferCompletionEntry,
    >)
        requires
            old(self).wf(),
            old(self).obeyable(&command),
        ensures
            final(self).wf(),
            final(self).obeyed(old(self), &command, published@),
    {
        let mut published: Vec<TransferCompletionEntry> = Vec::new();
        match command {
            WorkerCommand::SubmitWriteBatches(batches) => {
                let ghost list = batches@;
                let ghost mut states: Seq<Self> = seq![*self];
                let ghost mut results: Seq<Result<(), FabricLibError>> = Seq::empty();
                assert(batches_submitted(states, list.take(0), results));
                for item in it: batches
                    invariant
                        list == it.seq(),
                        self.wf(),
                        states.len() == it.index() + 1,
                        results.len() == it.index(),
                        states[0] == *old(self),
                        states.last() == *self,
                        batches_submitted(states, list.take(it.index() as int), results),
                        published@ == batch_failures(list, results, it.index() as int),
                {
                    let (transfer_id, request, admission) = item;
                    let ghost before = *self;
                    let ghost k = it.index() as int;
                    assert(list[k] == item);
                    let result = self.submit_transfer_request_guarded(
                        transfer_id,
                        TransferRequest::WriteBatch(request),
                        None,
                        Some(admission),
                    );
                    proof {
                        lemma_failures_prefix(list, results, result, k);
                        lemma_batches_step(states, list, results, *self, result, k);
                        states = states.push(*self);
                        results = results.push(result);
                    }
                    if let Err(error) = result {
                        published.push(TransferCompletionEntry::Error(transfer_id, error));
                    }
                }
                proof {
                    assert(list.take(list.len() as int) =~= list);
                    assert(batches_submitted(states, list, results));
                }
            },
            WorkerCommand::SubmitTransfer { transfer_id, request, tx_counter, admission } => {
                let ghost asked = request;
                let result = self.submit_transfer_request_guarded(
                    transfer_id,
                    request,
                    tx_counter,
                    admission,
                );
                assert(self.guarded(
                    old(self),
                    transfer_id,
                    &asked,
                    tx_counter,
                    admission,
                    result,
                ));
                let ghost outcome = result;
                if let Err(error) = result {
                    published.push(TransferCompletionEntry::Error(transfer_id, error));
                }
                assert(published@ =~= failure_of(transfer_id, outcome));
            },
            WorkerCommand::SubmitSend { transfer_id, mr, ptr, len, addr, coalescible } => {
                let ghost to = addr@;
                let result = self.submit_send(transfer_id, mr, ptr, len, addr, coalescible);
                assert(self.send_submitted(
                    old(self),
                    transfer_id,
                    mr,
                    ptr,
                    len,
                    to,
                    coalescible,
                    result,
                ));
                let ghost outcome = result;
                if let Err(error) = result {
                    published.push(TransferCompletionEntry::Error(transfer_id, error));
                }
                assert(published@ =~= failure_of(transfer_id, outcome));
            },
            WorkerCommand::SubmitRecv { transfer_id, mr, ptr, len } => {
                let result = self.submit_recv(transfer_id, mr, ptr, len);
                assert(self.recv_submitted(old(self), transfer_id, mr, ptr, len, result));
                let ghost outcome = result;
                if let Err(error) = result {
                    published.push(TransferCompletionEntry::Error(transfer_id, error));
                }
                assert(published@ =~= failure_of(transfer_id, outcome));
            },
        }
        published
    }
}

/// What is published of an operation that was accepted or was not.
pub open spec fn failure_of(id: TransferId, result: Result<(), FabricLibError>) -> Seq<
    TransferCompletionEntry,
> {
    match result {
        Ok(_) => Seq::empty(),
        Err(error) => seq![TransferCompletionEntry::Error(id, error)],
    }
}

/// What is published of the first `upto` batches.
pub open spec fn batch_failures<A>(
    batches: Seq<(TransferId, WriteBatchRequest, A)>,
    results: Seq<Result<(), FabricLibError>>,
    upto: int,
) -> Seq<TransferCompletionEntry>
    decreases upto,
{
    if upto <= 0 {
        Seq::empty()
    } else {
        batch_failures(batches, results, upto - 1) + failure_of(
            batches[upto - 1].0,
            results[upto - 1],
        )
    }
}

/// The batches have been submitted one after the other, through `states`, with `results`.
pub open spec fn batches_submitted<D: RdmaDomain, C, A, const N: usize>(
    states: Seq<DomainGroup<D, C, A, N>>,
    batches: Seq<(TransferId, WriteBatchRequest, A)>,
    results: Seq<Result<(), FabricLibError>>,
) -> bool {
    &&& states.len() == batches.len() + 1
    &&& results.len() == batches.len()
    &&& forall|i: int|
        #![trigger results[i]]
        0 <= i < results.len() ==> states[i + 1].guarded(
            &states[i],
            batches[i].0,
            &TransferRequest::WriteBatch(batches[i].1),
            None,
            Some(batches[i].2),
            results[i],
        )
}

proof fn lemma_failures_prefix<A>(
    batches: Seq<(TransferId, WriteBatchRequest, A)>,
    results: Seq<Result<(), FabricLibError>>,
    result: Result<(), FabricLibError>,
    upto: int,
)
    requires
        upto <= results.len(),
    ensures
        batch_failures(batches, results.push(result), upto) == batch_failures(
            batches,
            results,
            upto,
        ),
    decreases upto,
{
    if upto > 0 {
        lemma_failures_prefix(batches, results, result, upto - 1);
    }
}

proof fn lemma_batches_step<D: RdmaDomain, C, A, const N: usize>(
    states: Seq<DomainGroup<D, C, A, N>>,
    batches: Seq<(TransferId, WriteBatchRequest, A)>,
    results: Seq<Result<(), FabricLibError>>,
    after: DomainGroup<D, C, A, N>,
    result: Result<(), FabricLibError>,
    k: int,
)
    requires
        0 <= k < batches.len(),
        batches_submitted(states, batches.take(k), results),
        after.guarded(
            &states.last(),
            batches[k].0,
            &TransferRequest::WriteBatch(batches[k].1),
            None,
            Some(batches[k].2),
            result,
        ),
    ensures
        batches_submitted(states.push(after), batches.take(k + 1), results.push(result)),
{
    let more = states.push(after);
    let list = batches.take(k + 1);
    let outcomes = results.push(result);
    assert forall|i: int| #![trigger outcomes[i]] 0 <= i < outcomes.len() implies more[i
        + 1].guarded(
        &more[i],
        list[i].0,
        &TransferRequest::WriteBatch(list[i].1),
        None,
        Some(list[i].2),
        outcomes[i],
    ) by {
        if i < k {
            assert(results[i] == outcomes[i]);
            assert(batches.take(k)[i] == list[i]);
            assert(more[i] == states[i] && more[i + 1] == states[i + 1]);
        } else {
            assert(more[i] == states.last());
        }
    }
}

/// A report is to be published: it is there, and is not a success that the remote application
/// confirms.
pub open spec fn is_public(report: Option<DomainCompletionEntry>) -> bool {
    match report {
        None => false,
        Some(DomainCompletionEntry::Send(id)) => id.0 < 0x8000_0000_0000_0000,
        Some(DomainCompletionEntry::Transfer(id)) => id.0 < 0x8000_0000_0000_0000,
        Some(_) => true,
    }
}

/// Searches publish exactly the reports that are to be published, each once, in order, and each
/// as what it says.
pub proof fn reports_are_published_in_order(reports: Seq<Option<DomainCompletionEntry>>) -> (places:
    Seq<int>)
    ensures
        places.len() == published_of(reports).len(),
        forall|p: int|
            #![trigger places[p]]
            0 <= p < places.len() ==> 0 <= places[p] < reports.len() && is_public(
                reports[places[p]],
            ) && says_the_same(reports[places[p]]->Some_0, published_of(reports)[p]),
        forall|p: int, q: int|
            #![trigger places[p], places[q]]
            0 <= p < q < places.len() ==> places[p] < places[q],
        forall|r: int|
            #![trigger reports[r]]
            0 <= r < reports.len() && is_public(reports[r]) ==> places.contains(r),
    decreases reports.len(),
{
    if reports.len() == 0 {
        Seq::empty()
    } else {
        let rest = reports.drop_last();
        let before = reports_are_published_in_order(rest);
        let last = reports.len() - 1;
        let report = reports[last];
        if let Some(entry) = report {
            publication_keeps_the_completion(entry);
            match entry {
                DomainCompletionEntry::Send(id) => {
                    lemma_confirmed_is_high(id);
                },
                DomainCompletionEntry::Transfer(id) => {
                    lemma_confirmed_is_high(id);
                },
                _ => {},
            }
        }
        assert(is_public(report) <==> progress_of(report) is Publish);
        let places = if is_public(report) {
            before.push(last)
        } else {
            before
        };
        assert forall|p: int|
            #![trigger places[p]]
            0 <= p < places.len() implies 0 <= places[p] < reports.len() && is_public(
            reports[places[p]],
        ) && says_the_same(reports[places[p]]->Some_0, published_of(reports)[p]) by {
            if p < before.len() {
                assert(before[p] == places[p]);
                assert(rest[places[p]] == reports[places[p]]);
            }
        }
        assert forall|p: int, q: int|
            #![trigger places[p], places[q]]
            0 <= p < q < places.len() implies places[p] < places[q] by {
            assert(before[p] == places[p]);
            if q < before.len() {
                assert(before[q] == places[q]);
            }
        }
        assert forall|r: int|
            #![trigger reports[r]]
            0 <= r < reports.len() && is_public(reports[r]) implies places.contains(r) by {
            if r < last {
                assert(rest[r] == reports[r]);
                assert(before.contains(r));
                let p = choose|p: int| 0 <= p < before.len() && before[p] == r;
                assert(places[p] == r);
            } else {
                assert(places[before.len() as int] == r);
            }
        }
        places
    }
}

/// A command for one operation publishes nothing if the operation was accepted, and else one
/// failure, that of this operation, with the reason.
pub proof fn refused_operations_are_published<D: RdmaDomain, C, A, const N: usize>(
    after: DomainGroup<D, C, A, N>,
    before: DomainGroup<D, C, A, N>,
    command: WorkerCommand<C, A>,
    published: Seq<TransferCompletionEntry>,
) -> (result: Result<(), FabricLibError>)
    requires
        after.obeyed(&before, &command, published),
        !(command is SubmitWriteBatches),
    ensures
        match result {
            Ok(_) => published.len() == 0,
            Err(error) => published.len() == 1 && published[0] == TransferCompletionEntry::Error(
                match command {
                    WorkerCommand::SubmitTransfer { transfer_id, .. } => transfer_id,
                    WorkerCommand::SubmitSend { transfer_id, .. } => transfer_id,
                    WorkerCommand::SubmitRecv { transfer_id, .. } => transfer_id,
                    _ => arbitrary(),
                },
                error,
            ),
        },
        match command {
            WorkerCommand::SubmitTransfer { transfer_id, request, tx_counter, admission } => {
                after.guarded(&before, transfer_id, &request, tx_counter, admission, result)
            },
            WorkerCommand::SubmitSend { transfer_id, mr, ptr, len, addr, coalescible } => {
                after.send_submitted(
                    &before,
                    transfer_id,
                    mr,
                    ptr,
                    len,
                    addr@,
                    coalescible,
                    result,
                )
            },
            WorkerCommand::SubmitRecv { transfer_id, mr, ptr, len } => after.recv_submitted(
                &before,
                transfer_id,
                mr,
                ptr,
                len,
                result,
            ),
            _ => false,
        },
{
    match command {
        WorkerCommand::SubmitTransfer { transfer_id, request, tx_counter, admission } => {
            choose|result: Result<(), FabricLibError>|
                {
                    &&& #[trigger] after.guarded(
                        &before,
                        transfer_id,
                        &request,
                        tx_counter,
                        admission,
                        result,
                    )
                    &&& published == failure_of(transfer_id, result)
                }
        },
        WorkerCommand::SubmitSend { transfer_id, mr, ptr, len, addr, coalescible } => {
            choose|result: Result<(), FabricLibError>|
                {
                    &&& #[trigger] after.send_submitted(
                        &before,
                        transfer_id,
                        mr,
                        ptr,
                        len,
                        addr@,
                        coalescible,
                        result,
                    )
                    &&& published == failure_of(transfer_id, result)
                }
        },
        WorkerCommand::SubmitRecv { transfer_id, mr, ptr, len } => {
            choose|result: Result<(), FabricLibError>|
                {
                    &&& #[trigger] after.recv_submitted(
                        &before,
                        transfer_id,
                        mr,
                        ptr,
                        len,
                        result,
                    )
                    &&& published == failure_of(transfer_id, result)
                }
        },
        WorkerCommand::SubmitWriteBatches(_) => Ok(()),
    }
}

/// The failures of batches are published in the order of the batches, one for each that was
/// refused, and nothing else is.
pub proof fn refused_batches_are_published<A>(
    batches: Seq<(TransferId, WriteBatchRequest, A)>,
    results: Seq<Result<(), FabricLibError>>,
    upto: int,
) -> (places: Seq<int>)
    requires
        0 <= upto <= batches.len(),
        results.len() == batches.len(),
    ensures
        places.len() == batch_failures(batches, results, upto).len(),
        forall|p: int|
            #![trigger places[p]]
            0 <= p < places.len() ==> 0 <= places[p] < upto && results[places[p]] is Err
                && batch_failures(batches, results, upto)[p] == TransferCompletionEntry::Error(
                batches[places[p]].0,
                results[places[p]]->Err_0,
            ),
        forall|p: int, q: int|
            #![trigger places[p], places[q]]
            0 <= p < q < places.len() ==> places[p] < places[q],
        forall|b: int|
            #![trigger results[b]]
            0 <= b < upto && results[b] is Err ==> places.contains(b),
    decreases upto,
{
    if upto == 0 {
        Seq::empty()
    } else {
        let last = upto - 1;
        let before = refused_batches_are_published(batches, results, last);
        let places = if results[last] is Err {
            before.push(last)
        } else {
            before
        };
        assert forall|p: int|
            #![trigger places[p]]
            0 <= p < places.len() implies 0 <= places[p] < upto && results[places[p]] is Err
            && batch_failures(batches, results, upto)[p] == TransferCompletionEntry::Error(
            batches[places[p]].0,
            results[places[p]]->Err_0,
        ) by {
            if p < before.len() {
                assert(before[p] == places[p]);
            }
        }
        assert forall|p: int, q: int|
            #![trigger places[p], places[q]]
            0 <= p < q < places.len() implies places[p] < places[q] by {
            assert(before[p] == places[p]);
            if q < before.len() {
                assert(before[q] == places[q]);
            }
        }
        assert forall|b: int|
            #![trigger results[b]]
            0 <= b < upto && results[b] is Err implies places.contains(b) by {
            if b < last {
                assert(before.contains(b));
                let p = choose|p: int| 0 <= p < before.len() && before[p] == b;
                assert(places[p] == b);
            } else {
                assert(places[before.len() as int] == b);
            }
        }
        places
    }
}

} // verus!
