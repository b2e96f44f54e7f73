//! Requests of every kind.
use vstd::prelude::*;

use crate::api::{
    DomainAddress, DomainGroupRouting, MemoryRegionDescriptor, MemoryRegionHandle,
    MemoryRegionLocalDescriptor, TransferId, TransferRequest, WRITE_QP_LANES,
};
use crate::domain_group::delivery::lemma_only_one;
use crate::domain_group::gather::gather_in_range;
use crate::domain_group::imm::{imm_in_range, imm_posts};
use crate::domain_group::paged::paged_in_range;
use crate::domain_group::scatter::scatter_in_range;
use crate::domain_group::single::single_in_range;
use crate::domain_group::{DomainGroup, WriteOpContext, fresh_context, posted, shard_count};
use crate::error::FabricLibError;
use crate::provider::{DomainEvent, RdmaDomain};
use crate::rdma_op::{RecvOp, SendOp};
use crate::segments::{lemma_total_length_bounds, total_length};
use crate::sharding::lemma_range_count;

verus! {

impl<D: RdmaDomain, C, A, const N: usize> DomainGroup<D, C, A, N> {
    /// The group has the domains that the request needs, and no offset leaves the range of a
    /// word.
    pub open spec fn submittable(&self, request: &TransferRequest) -> bool {
        match request {
            TransferRequest::Imm(request) => imm_in_range(
                seq![request.dst_mr],
                request.domain,
                N as int,
            ),
            TransferRequest::Barrier(request) => imm_in_range(
                request.dst_mrs@,
                request.domain,
                N as int,
            ),
            TransferRequest::Single(request) => single_in_range(request, N as int),
            TransferRequest::Gather(request) => gather_in_range(request, N as int),
            TransferRequest::WriteBatch(_) => true,
            TransferRequest::Paged(request) => paged_in_range(request, N as int),
            TransferRequest::Scatter(request) => self.scatter_fault(request) is None
                ==> scatter_in_range(request, N as int),
        }
    }

    /// What becomes of a request.
    pub open spec fn submitted(
        &self,
        before: &Self,
        id: TransferId,
        request: &TransferRequest,
        tx_counter: Option<C>,
        result: Result<(), FabricLibError>,
    ) -> bool {
        match request {
            TransferRequest::Imm(request) => self.imm_submitted(
                before,
                id,
                request.imm_data,
                seq![request.dst_mr],
                request.domain,
                tx_counter,
                result,
            ),
            TransferRequest::Barrier(request) => self.imm_submitted(
                before,
                id,
                request.imm_data,
                request.dst_mrs@,
                request.domain,
                tx_counter,
                result,
            ),
            TransferRequest::Single(request) => self.single_submitted(
                before,
                id,
                request,
                tx_counter,
                result,
            ),
            TransferRequest::Gather(request) => self.gather_submitted(
                before,
                id,
                request,
                tx_counter,
                result,
            ),
            TransferRequest::WriteBatch(request) => self.batch_submitted(
                before,
                id,
                request,
                tx_counter,
                result,
            ),
            TransferRequest::Paged(request) => self.paged_submitted(
                before,
                id,
                request,
                tx_counter,
                result,
            ),
            TransferRequest::Scatter(request) => self.scatter_submitted(
                before,
                id,
                request,
                tx_counter,
                result,
            ),
        }
    }

    /// Checks a request, divides it into writes, and hands these to the domains.
    pub fn submit_transfer_request(
        &mut self,
        transfer_id: TransferId,
        request: TransferRequest,
        tx_counter: Option<C>,
    ) -> (result: Result<(), FabricLibError>)
        requires
            old(self).wf(),
            old(self).submittable(&request),
        ensures
            final(self).wf(),
            final(self).submitted(old(self), transfer_id, &request, tx_counter, result),
    {
        match request {
            TransferRequest::Imm(request) => {
                let imm_data: u32 = request.imm_data;
                let domain = request.domain;
                let dst_mrs = vec![request.dst_mr];
                assert(dst_mrs@ =~= seq![request.dst_mr]);
                self.submit_imm_transfer_request(
                    transfer_id,
                    imm_data,
                    dst_mrs.as_slice(),
                    domain,
                    tx_counter,
                )
            },
            TransferRequest::Barrier(request) => self.submit_imm_transfer_request(
                transfer_id,
                request.imm_data,
                request.dst_mrs.as_slice(),
                request.domain,
                tx_counter,
            ),
            TransferRequest::Single(request) => self.submit_single_transfer_request(
                transfer_id,
                request,
                tx_counter,
            ),
            TransferRequest::Gather(request) => self.submit_gather_transfer_request(
                transfer_id,
                request,
                tx_counter,
            ),
            TransferRequest::WriteBatch(request) => self.submit_write_batch(
                transfer_id,
                request,
                tx_counter,
            ),
            TransferRequest::Paged(request) => self.submit_paged_transfer_request(
                transfer_id,
                request,
                tx_counter,
            ),
            TransferRequest::Scatter(request) => self.submit_scatter_transfer_request(
                transfer_id,
                request,
                tx_counter,
            ),
        }
    }

    /// The same group, but that the transfer `id` holds `admission`.
    pub open spec fn admitted(&self, before: &Self, id: TransferId, admission: Option<A>) -> bool {
        &&& self.same_but_ledger(before)
        &&& self.signals == before.signals
        &&& before.write_ops@.contains_key(id.0)
        &&& self.write_ops@ == before.write_ops@.insert(
            id.0,
            WriteOpContext { admission, ..before.write_ops@[id.0] },
        )
    }

    /// What becomes of a request whose transfer is to hold `admission`.
    pub open spec fn guarded(
        &self,
        before: &Self,
        id: TransferId,
        request: &TransferRequest,
        counter: Option<C>,
        admission: Option<A>,
        result: Result<(), FabricLibError>,
    ) -> bool {
        match result {
            Ok(_) => exists|unguarded: Self|
                {
                    &&& #[trigger] unguarded.submitted(before, id, request, counter, result)
                    &&& self.admitted(&unguarded, id, admission)
                },
            Err(_) => self.submitted(before, id, request, counter, result),
        }
    }

    /// Submits a request; an accepted transfer holds `admission` until it is over.
    pub fn submit_transfer_request_guarded(
        &mut self,
        id: TransferId,
        request: TransferRequest,
        counter: Option<C>,
        admission: Option<A>,
    ) -> (result: Result<(), FabricLibError>)
        requires
            old(self).wf(),
            old(self).submittable(&request),
        ensures
            final(self).wf(),
            final(self).guarded(old(self), id, &request, counter, admission, result),
    {
        let ghost asked = request;
        match self.submit_transfer_request(id, request, counter) {
            Ok(_) => {},
            Err(error) => {
                return Err(error);
            },
        }
        let ghost unguarded = *self;
        proof {
            accepted_transfer_is_in_flight(unguarded, *old(self), id, asked, counter);
        }
        if let Some(mut context) = self.write_ops.remove(&id.0) {
            context.admission = admission;
            self.write_ops.insert(id.0, context);
            assert(self.write_ops@ =~= unguarded.write_ops@.insert(
                id.0,
                WriteOpContext { admission, ..unguarded.write_ops@[id.0] },
            ));
        }
        assert(unguarded.submitted(old(self), id, &asked, counter, Ok(())));
        assert(self.admitted(&unguarded, id, admission));
        Ok(())
    }

    /// What becomes of a message to be sent.
    pub open spec fn send_submitted(
        &self,
        before: &Self,
        transfer_id: TransferId,
        mr: MemoryRegionHandle,
        ptr: u64,
        len: usize,
        addr: Seq<u8>,
        coalescible: bool,
        result: Result<(), FabricLibError>,
    ) -> bool {
        match before.domains[0].mem_desc(mr.ptr) {
            Ok(desc) => {
                &&& result is Ok
                &&& self.rr_next == before.rr_next
                &&& self.same_tables(before)
                &&& self.histories() == before.histories().update(
                    0,
                    before.histories()[0].push(
                        DomainEvent::Send {
                            id: transfer_id,
                            addr: addr,
                            op: SendOp { ptr, len, desc, coalescible },
                        },
                    ),
                )
            },
            Err(error) => {
                &&& result == Err::<(), FabricLibError>(error)
                &&& *self == *before
            },
        }
    }

    /// Sends a message through the first domain.
    pub fn submit_send(
        &mut self,
        transfer_id: TransferId,
        mr: MemoryRegionHandle,
        ptr: u64,
        len: usize,
        addr: DomainAddress,
        coalescible: bool,
    ) -> (result: Result<(), FabricLibError>)
        requires
            N > 0,
        ensures
            old(self).wf() ==> final(self).wf(),
            final(self).send_submitted(
                old(self),
                transfer_id,
                mr,
                ptr,
                len,
                addr@,
                coalescible,
                result,
            ),
    {
        match self.domains[0].get_mem_desc(mr.ptr) {
            Ok(desc) => {
                let op = SendOp { ptr, len, desc, coalescible };
                self.domains[0].submit_send(transfer_id, addr, op);
                assert(self.histories() =~= old(self).histories().update(
                    0,
                    old(self).histories()[0].push(
                        DomainEvent::Send { id: transfer_id, addr: addr@, op },
                    ),
                ));
                Ok(())
            },
            Err(error) => Err(error),
        }
    }

    /// What becomes of a message to be received.
    pub open spec fn recv_submitted(
        &self,
        before: &Self,
        transfer_id: TransferId,
        mr: MemoryRegionHandle,
        ptr: u64,
        len: usize,
        result: Result<(), FabricLibError>,
    ) -> bool {
        match before.domains[0].mem_desc(mr.ptr) {
            Ok(desc) => {
                &&& result is Ok
                &&& self.rr_next == before.rr_next
                &&& self.same_tables(before)
                &&& self.histories() == before.histories().update(
                    0,
                    before.histories()[0].push(
                        DomainEvent::Recv { id: transfer_id, op: RecvOp { ptr, len, desc } },
                    ),
                )
            },
            Err(error) => {
                &&& result == Err::<(), FabricLibError>(error)
                &&& *self == *before
            },
        }
    }

    /// Receives a message through the first domain.
    pub fn submit_recv(
        &mut self,
        transfer_id: TransferId,
        mr: MemoryRegionHandle,
        ptr: u64,
        len: usize,
    ) -> (result: Result<(), FabricLibError>)
        requires
            N > 0,
        ensures
            old(self).wf() ==> final(self).wf(),
            final(self).recv_submitted(old(self), transfer_id, mr, ptr, len, result),
    {
        match self.domains[0].get_mem_desc(mr.ptr) {
            Ok(desc) => {
                let op = RecvOp { ptr, len, desc };
                self.domains[0].submit_recv(transfer_id, op);
                assert(self.histories() =~= old(self).histories().update(
                    0,
                    old(self).histories()[0].push(DomainEvent::Recv { id: transfer_id, op }),
                ));
                Ok(())
            },
            Err(error) => Err(error),
        }
    }
}

/// An accepted transfer stands in the table with none of its writes retired.
pub proof fn accepted_transfer_is_in_flight<D: RdmaDomain, C, A, const N: usize>(
    after: DomainGroup<D, C, A, N>,
    before: DomainGroup<D, C, A, N>,
    id: TransferId,
    request: TransferRequest,
    tx_counter: Option<C>,
)
    requires
        after.submitted(&before, id, &request, tx_counter, Ok(())),
    ensures
        after.write_ops@.contains_key(id.0),
        after.write_ops@[id.0] == fresh_context::<C, A>(
            after.write_ops@[id.0].num_used_domains,
            tx_counter,
        ),
        after.write_ops@[id.0].cnt_domain_completion == 0,
        after.write_ops@[id.0].tx_counter == tx_counter,
        after.write_ops@[id.0].error is None,
        after.write_ops@[id.0].admission is None,
{
    let ok = Ok::<(), FabricLibError>(());
    match request {
        TransferRequest::Single(request) => {
            assert(after.single_submitted(&before, id, &request, tx_counter, ok));
        },
        TransferRequest::Paged(request) => {
            assert(after.paged_submitted(&before, id, &request, tx_counter, ok));
        },
        _ => {},
    }
}

/// How many calls the domains have served together.
pub open spec fn calls_served(histories: Seq<Seq<DomainEvent>>) -> nat
    decreases histories.len(),
{
    if histories.len() == 0 {
        0
    } else {
        calls_served(histories.drop_last()) + histories.last().len()
    }
}

/// One more call, of the domain `i`.
proof fn lemma_call_served(histories: Seq<Seq<DomainEvent>>, i: int, event: DomainEvent)
    requires
        0 <= i < histories.len(),
    ensures
        calls_served(histories.update(i, histories[i].push(event))) == calls_served(histories) + 1,
    decreases histories.len(),
{
    let later = histories.update(i, histories[i].push(event));
    if i == histories.len() - 1 {
        assert(later.drop_last() =~= histories.drop_last());
    } else {
        let rest = histories.drop_last();
        lemma_call_served(rest, i, event);
        assert(later.drop_last() =~= rest.update(i, rest[i].push(event)));
    }
}

/// Every post is one call.
proof fn lemma_posts_served(histories: Seq<Seq<DomainEvent>>, posts: Seq<(int, DomainEvent)>)
    requires
        forall|k: int|
            #![trigger posts[k]]
            0 <= k < posts.len() ==> 0 <= posts[k].0 < histories.len(),
    ensures
        posted(histories, posts).len() == histories.len(),
        calls_served(posted(histories, posts)) == calls_served(histories) + posts.len(),
    decreases posts.len(),
{
    if posts.len() > 0 {
        let rest = posts.drop_last();
        assert forall|k: int| #![trigger rest[k]] 0 <= k < rest.len() implies 0 <= rest[k].0
            < histories.len() by {
            assert(rest[k] == posts[k]);
        }
        lemma_posts_served(histories, rest);
        let last = posts[posts.len() - 1];
        assert(last == posts.last());
        lemma_call_served(posted(histories, rest), last.0, last.1);
    }
}

/// An accepted transfer waits for exactly as many completions as the domains have been given
/// writes.
pub proof fn accepted_transfer_counts_its_writes<D: RdmaDomain, C, A, const N: usize>(
    after: DomainGroup<D, C, A, N>,
    before: DomainGroup<D, C, A, N>,
    id: TransferId,
    request: TransferRequest,
    tx_counter: Option<C>,
)
    requires
        before.wf(),
        before.submittable(&request),
        after.submitted(&before, id, &request, tx_counter, Ok(())),
    ensures
        calls_served(after.histories()) == calls_served(before.histories())
            + after.write_ops@[id.0].num_used_domains,
{
    let ok = Ok::<(), FabricLibError>(());
    let n = N as int;
    let rr = before.rr_next as int;
    match request {
        TransferRequest::Imm(request) => {
            lemma_imm_served(
                after,
                before,
                id,
                request.imm_data,
                seq![request.dst_mr],
                request.domain,
                tx_counter,
            );
        },
        TransferRequest::Barrier(request) => {
            assert(request.dst_mrs.len() == request.dst_mrs@.len());
            lemma_imm_served(
                after,
                before,
                id,
                request.imm_data,
                request.dst_mrs@,
                request.domain,
                tx_counter,
            );
        },
        TransferRequest::Single(request) => {
            assert(after.single_submitted(&before, id, &request, tx_counter, ok));
            lemma_posts_served(before.histories(), before.single_posts(id, &request));
        },
        TransferRequest::Gather(request) => {
            lemma_total_length_bounds(request.segments@, u32::MAX as int);
            lemma_range_count(total_length(request.segments@), shard_count(request.domain));
            lemma_posts_served(before.histories(), before.gather_posts(id, &request));
        },
        TransferRequest::WriteBatch(request) => {
            let d = (request.lane / WRITE_QP_LANES) as int;
            lemma_call_served(before.histories(), d, after.histories()[d].last());
        },
        TransferRequest::Paged(request) => {
            assert(after.paged_submitted(&before, id, &request, tx_counter, ok));
            lemma_range_count(request.src_page_indices@.len() as int, n);
            lemma_posts_served(before.histories(), before.paged_posts(id, &request));
        },
        TransferRequest::Scatter(request) => {
            if N > 0 {
                lemma_range_count(request.dsts@.len() as int, n);
            }
            lemma_posts_served(before.histories(), before.scatter_posts(id, &request));
        },
    }
}

proof fn lemma_imm_served<D: RdmaDomain, C, A, const N: usize>(
    after: DomainGroup<D, C, A, N>,
    before: DomainGroup<D, C, A, N>,
    id: TransferId,
    imm_data: u32,
    dst_mrs: Seq<MemoryRegionDescriptor>,
    domain: DomainGroupRouting,
    tx_counter: Option<C>,
)
    requires
        before.wf(),
        dst_mrs.len() <= usize::MAX,
        imm_in_range(dst_mrs, domain, N as int),
        after.imm_submitted(&before, id, imm_data, dst_mrs, domain, tx_counter, Ok(())),
    ensures
        calls_served(after.histories()) == calls_served(before.histories()) + dst_mrs.len(),
        after.write_ops@[id.0].num_used_domains == dst_mrs.len(),
{
    lemma_posts_served(
        before.histories(),
        imm_posts(id, imm_data, dst_mrs, domain, before.rr_next as int, N as int),
    );
}

/// Whatever becomes of a request, the other transfers, the peer groups and the signals are as
/// they were.
pub proof fn submission_keeps_other_transfers<D: RdmaDomain, C, A, const N: usize>(
    after: DomainGroup<D, C, A, N>,
    before: DomainGroup<D, C, A, N>,
    id: TransferId,
    request: TransferRequest,
    tx_counter: Option<C>,
    result: Result<(), FabricLibError>,
    other: u64,
)
    requires
        after.submitted(&before, id, &request, tx_counter, result),
        other != id.0,
    ensures
        after.same_peers(&before),
        after.write_ops@.contains_key(other) == before.write_ops@.contains_key(other),
        before.write_ops@.contains_key(other) ==> after.write_ops@[other]
            == before.write_ops@[other],
{
}

/// An accepted transfer holds what it was given to hold until it is over; apart from that, it
/// makes no difference whether a transfer is given something to hold.
pub proof fn accepted_transfer_holds_its_admission<D: RdmaDomain, C, A, const N: usize>(
    after: DomainGroup<D, C, A, N>,
    before: DomainGroup<D, C, A, N>,
    id: TransferId,
    request: TransferRequest,
    counter: Option<C>,
    admission: Option<A>,
    result: Result<(), FabricLibError>,
) -> (unguarded: DomainGroup<D, C, A, N>)
    requires
        after.guarded(&before, id, &request, counter, admission, result),
    ensures
        unguarded.submitted(&before, id, &request, counter, result),
        after.domains == unguarded.domains,
        after.rr_next == unguarded.rr_next,
        after.same_peers(&unguarded),
        result is Err ==> after == unguarded,
        result is Ok ==> {
            &&& after.write_ops@.contains_key(id.0)
            &&& after.write_ops@[id.0].admission == admission
            &&& after.write_ops@[id.0].tx_counter == counter
            &&& after.write_ops@[id.0].num_used_domains
                == unguarded.write_ops@[id.0].num_used_domains
            &&& after.write_ops@[id.0].cnt_domain_completion == 0
            &&& after.write_ops@[id.0].error is None
            &&& after.write_ops@.remove(id.0) == unguarded.write_ops@.remove(id.0)
        },
{
    match result {
        Ok(done) => {
            let unguarded = choose|unguarded: DomainGroup<D, C, A, N>|
                {
                    &&& #[trigger] unguarded.submitted(&before, id, &request, counter, result)
                    &&& after.admitted(&unguarded, id, admission)
                };
            assert(done == ());
            accepted_transfer_is_in_flight(unguarded, before, id, request, counter);
            assert(after.write_ops@.remove(id.0) =~= unguarded.write_ops@.remove(id.0));
            unguarded
        },
        Err(_) => after,
    }
}

/// A message is sent exactly if the first domain knows its memory: then that domain is given it,
/// as it was asked for, and no other domain is given anything; else nothing changes.
pub proof fn messages_are_sent_through_the_first_domain<D: RdmaDomain, C, A, const N: usize>(
    after: DomainGroup<D, C, A, N>,
    before: DomainGroup<D, C, A, N>,
    id: TransferId,
    mr: MemoryRegionHandle,
    ptr: u64,
    len: usize,
    addr: Seq<u8>,
    coalescible: bool,
    result: Result<(), FabricLibError>,
)
    requires
        N > 0,
        after.send_submitted(&before, id, mr, ptr, len, addr, coalescible, result),
    ensures
        result is Ok <==> before.domains[0].mem_desc(mr.ptr) is Ok,
        result is Err ==> after == before,
        result is Ok ==> {
            &&& after.write_ops == before.write_ops
            &&& after.continues(&before)
            &&& forall|i: int|
                #![trigger after.given(&before, i)]
                0 < i < N ==> after.given(&before, i).len() == 0
            &&& after.given(&before, 0).len() == 1
            &&& after.given(&before, 0)[0] matches DomainEvent::Send {
                id: given_id,
                addr: to,
                op,
            } && {
                &&& given_id == id
                &&& to == addr
                &&& op.ptr == ptr
                &&& op.len == len
                &&& op.coalescible == coalescible
                &&& before.domains[0].mem_desc(mr.ptr) == Ok::<
                    MemoryRegionLocalDescriptor,
                    FabricLibError,
                >(op.desc)
            }
        },
{
    if result is Ok {
        let op = SendOp {
            ptr,
            len,
            desc: before.domains[0].mem_desc(mr.ptr)->Ok_0,
            coalescible,
        };
        lemma_one_event(after, before, DomainEvent::Send { id, addr, op });
    }
}

/// A message is received exactly if the first domain knows the memory: then that domain is given
/// the memory, as it was asked for, and no other domain is given anything; else nothing changes.
pub proof fn messages_are_received_through_the_first_domain<D: RdmaDomain, C, A, const N: usize>(
    after: DomainGroup<D, C, A, N>,
    before: DomainGroup<D, C, A, N>,
    id: TransferId,
    mr: MemoryRegionHandle,
    ptr: u64,
    len: usize,
    result: Result<(), FabricLibError>,
)
    requires
        N > 0,
        after.recv_submitted(&before, id, mr, ptr, len, result),
    ensures
        result is Ok <==> before.domains[0].mem_desc(mr.ptr) is Ok,
        result is Err ==> after == before,
        result is Ok ==> {
            &&& after.write_ops == before.write_ops
            &&& after.continues(&before)
            &&& forall|i: int|
                #![trigger after.given(&before, i)]
                0 < i < N ==> after.given(&before, i).len() == 0
            &&& after.given(&before, 0).len() == 1
            &&& after.given(&before, 0)[0] matches DomainEvent::Recv { id: given_id, op } && {
                &&& given_id == id
                &&& op.ptr == ptr
                &&& op.len == len
                &&& before.domains[0].mem_desc(mr.ptr) == Ok::<
                    MemoryRegionLocalDescriptor,
                    FabricLibError,
                >(op.desc)
            }
        },
{
    if result is Ok {
        let op = RecvOp { ptr, len, desc: before.domains[0].mem_desc(mr.ptr)->Ok_0 };
        lemma_one_event(after, before, DomainEvent::Recv { id, op });
    }
}

proof fn lemma_one_event<D: RdmaDomain, C, A, const N: usize>(
    after: DomainGroup<D, C, A, N>,
    before: DomainGroup<D, C, A, N>,
    event: DomainEvent,
)
    requires
        N > 0,
        after.histories() == before.histories().update(0, before.histories()[0].push(event)),
    ensures
        after.continues(&before),
        after.given(&before, 0) == seq![event],
        forall|i: int|
            #![trigger after.given(&before, i)]
            0 < i < N ==> after.given(&before, i).len() == 0,
{
    let posts = seq![(0int, event)];
    assert(posts.drop_last() =~= Seq::<(int, DomainEvent)>::empty());
    assert(posted(before.histories(), posts.drop_last()) == before.histories());
    assert(after.histories() == posted(before.histories(), posts));
    lemma_only_one(after, before, posts);
}

} // verus!
