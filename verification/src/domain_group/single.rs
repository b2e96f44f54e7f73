//! Contiguous writes.
use vstd::arithmetic::div_mod::{lemma_fundamental_div_mod, lemma_small_mod};
use vstd::prelude::*;

use crate::api::{
    DomainAddress, DomainGroupRouting, MemoryRegionLocalDescriptor, SingleTransferRequest,
    TransferId,
};
use crate::domain_group::delivery::{
    lemma_shard_of_domain, lemma_shards_are_given, lemma_steps_of_shard, shard_on,
};
use crate::domain_group::{
    DomainGroup, Lookups, all_found, check_routing, fails_first_at, fresh_context,
    lemma_posted_push, lemma_round_robin_step, posted, routing_fault, shard_count,
};
use crate::error::FabricLibError;
use crate::provider::{DomainEvent, RdmaDomain};
use crate::rdma_op::{SingleWriteOp, Write, WriteOp};
use crate::sharding::{
    MIN_SHARD_SIZE, ceil_div, lemma_ceil_div, lemma_mul_le, lemma_mul_step, shard_single_transfer,
    shard_size, single_shard, single_shards_cover,
};

verus! {

/// Why `n` domains refuse a contiguous write.
pub open spec fn single_fault(request: &SingleTransferRequest, n: int) -> Option<FabricLibError> {
    if request.dst_mr.width() != n {
        Some(
            FabricLibError::Custom("Number of target addresses must match the number of domains"),
        )
    } else {
        routing_fault(request.domain, n)
    }
}

/// The shards of a contiguous write have addresses that a machine word holds.
pub open spec fn single_in_range(request: &SingleTransferRequest, n: int) -> bool {
    let total = request.length as usize as int;
    let shards = shard_count(request.domain);
    &&& request.domain.valid()
    &&& single_fault(request, n) is None ==> {
        &&& shard_size(total, shards) <= usize::MAX
        &&& forall|k: int|
            #![trigger single_shard(total, shards, k)]
            0 <= k < shards ==> request.src_offset + single_shard(total, shards, k).0 <= u64::MAX
                && request.dst_offset + single_shard(total, shards, k).0 <= u64::MAX
    }
}

/// The write of the shard `k` on the domain `i`.
pub open spec fn single_write(
    request: &SingleTransferRequest,
    k: int,
    i: int,
    src_desc: MemoryRegionLocalDescriptor,
) -> SingleWriteOp {
    let (offset, len) = single_shard(
        request.length as usize as int,
        shard_count(request.domain),
        k,
    );
    SingleWriteOp {
        src_ptr: request.src_mr.ptr,
        src_desc,
        src_offset: (request.src_offset + offset) as u64,
        length: len as u64,
        imm_data: request.imm_data,
        dst_ptr: request.dst_mr.ptr,
        dst_rkey: request.dst_mr.rkey(i),
        dst_offset: (request.dst_offset + offset) as u64,
    }
}

/// Every byte of a contiguous write lies in exactly one of its shards, and each shard takes its
/// bytes to where they belong: as far into the destination as they were into the source.
pub proof fn every_byte_is_written_once(
    request: &SingleTransferRequest,
    n: int,
    byte: int,
    i: int,
    src_desc: MemoryRegionLocalDescriptor,
) -> (k: int)
    requires
        single_fault(request, n) is None,
        single_in_range(request, n),
        0 <= byte < request.length as usize,
    ensures
        0 <= k < shard_count(request.domain),
        forall|j: int|
            #![trigger single_write(request, j, i, src_desc)]
            0 <= j < shard_count(request.domain) ==> {
                let write = single_write(request, j, i, src_desc);
                &&& write.src_offset <= request.src_offset + byte < write.src_offset + write.length
                    <==> j == k
                &&& write.src_offset - request.src_offset == write.dst_offset - request.dst_offset
            },
{
    let total = request.length as usize as int;
    let shards = shard_count(request.domain);
    let base = shard_size(total, shards);
    let share = ceil_div(total, shards);
    single_shards_cover(total, shards);
    lemma_ceil_div(total, shards);
    lemma_ceil_div(share, MIN_SHARD_SIZE as int);
    lemma_fundamental_div_mod(byte, base);
    let k = byte / base;
    assert(base * k == k * base) by (nonlinear_arith);
    if k < 0 {
        lemma_mul_le(k, -1, base);
    }
    if k >= shards {
        lemma_mul_le(shards, k, base);
        lemma_mul_le(share, base, shards);
        assert(shards * base == base * shards) by (nonlinear_arith);
    }
    assert forall|j: int|
        #![trigger single_write(request, j, i, src_desc)]
        0 <= j < shards implies {
        let write = single_write(request, j, i, src_desc);
        &&& write.src_offset <= request.src_offset + byte < write.src_offset + write.length <==> j
            == k
        &&& write.src_offset - request.src_offset == write.dst_offset - request.dst_offset
    } by {
        let (offset, len) = single_shard(total, shards, j);
        assert(0 <= offset && offset + len <= total);
        lemma_mul_step(j, base);
        if j < k {
            lemma_mul_le(j + 1, k, base);
        }
        if j > k {
            lemma_mul_step(k, base);
            lemma_mul_le(k + 1, j, base);
        }
    }
    k
}

impl<D: RdmaDomain, C, A, const N: usize> DomainGroup<D, C, A, N> {
    /// The source lookups of a contiguous write, one for each shard.
    pub open spec fn single_lookups(&self, request: &SingleTransferRequest) -> Lookups {
        Seq::new(
            shard_count(request.domain) as nat,
            |k: int|
                self.domains[request.domain.domain_of_shard(
                    self.rr_next as int,
                    k,
                    N as int,
                )].mem_desc(request.src_mr.ptr),
        )
    }

    /// What a contiguous write hands to the domains.
    pub open spec fn single_posts(&self, id: TransferId, request: &SingleTransferRequest) -> Seq<
        (int, DomainEvent),
    > {
        Seq::new(
            shard_count(request.domain) as nat,
            |k: int|
                {
                    let i = request.domain.domain_of_shard(self.rr_next as int, k, N as int);
                    (
                        i,
                        DomainEvent::Write {
                            id,
                            addr: request.dst_mr.addr(i),
                            op: Write::Single(
                                single_write(request, k, i, self.single_lookups(request)[k]->Ok_0),
                            ),
                        },
                    )
                },
        )
    }

    /// What becomes of a request for a contiguous write.
    pub open spec fn single_submitted(
        &self,
        before: &Self,
        transfer_id: TransferId,
        request: &SingleTransferRequest,
        tx_counter: Option<C>,
        result: Result<(), FabricLibError>,
    ) -> bool {
        match single_fault(request, N as int) {
            Some(fault) => result == Err::<(), FabricLibError>(fault) && *self == *before,
            None => if all_found(before.single_lookups(request)) {
                &&& result is Ok
                &&& self.rr_next == request.domain.advanced(
                    before.rr_next as int,
                    shard_count(request.domain),
                    N as int,
                )
                &&& self.same_peers(before)
                &&& self.write_ops@ == before.write_ops@.insert(
                    transfer_id.0,
                    fresh_context(shard_count(request.domain) as usize, tx_counter),
                )
                &&& self.histories() == posted(
                    before.histories(),
                    before.single_posts(transfer_id, request),
                )
            } else {
                &&& self.same_but_round_robin(before)
                &&& exists|k: int|
                    #![trigger before.single_lookups(request)[k]]
                    fails_first_at(before.single_lookups(request), k) && result == Err::<
                        (),
                        FabricLibError,
                    >(before.single_lookups(request)[k]->Err_0) && self.rr_next
                        == request.domain.advanced(
                        before.rr_next as int,
                        k + 1,
                        N as int,
                    )
            },
        }
    }

    /// Divides a contiguous write between domains.
    ///
    /// A refused request changes nothing. When a domain does not know the source, no domain is
    /// given a write; a round robin has then passed the domains asked so far.
    pub fn submit_single_transfer_request(
        &mut self,
        transfer_id: TransferId,
        request: SingleTransferRequest,
        tx_counter: Option<C>,
    ) -> (result: Result<(), FabricLibError>)
        requires
            old(self).wf(),
            single_in_range(&request, N as int),
        ensures
            final(self).wf(),
            final(self).single_submitted(old(self), transfer_id, &request, tx_counter, result),
    {
        if request.dst_mr.addr_rkey_list.len() != N {
            return Err(
                FabricLibError::Custom(
                    "Number of target addresses must match the number of domains",
                ),
            );
        }
        let num_shards: usize = match check_routing(request.domain, N) {
            Ok(count) => count,
            Err(fault) => {
                return Err(fault);
            },
        };
        let ranges = shard_single_transfer(request.length as usize, num_shards);

        let ghost rr = self.rr_next as int;
        proof {
            lemma_small_mod(self.rr_next as nat, N as nat);
        }
        let ghost lookups = self.single_lookups(&request);
        let ghost posts = self.single_posts(transfer_id, &request);
        let ghost total = request.length as usize as int;
        let mut rdma_ops: Vec<(usize, WriteOp, DomainAddress)> = Vec::with_capacity(num_shards);
        let mut shard: usize = 0;
        while shard < num_shards
            invariant
                shard <= num_shards,
                num_shards == shard_count(request.domain),
                num_shards == ranges@.len(),
                0 < num_shards <= N,
                single_fault(&request, N as int) is None,
                single_in_range(&request, N as int),
                total == request.length as usize,
                old(self).wf(),
                rr == old(self).rr_next,
                self.rr_next == request.domain.advanced(rr, shard as int, N as int),
                self.rr_next < N,
                self.same_but_round_robin(old(self)),
                lookups == old(self).single_lookups(&request),
                posts == old(self).single_posts(transfer_id, &request),
                forall|j: int|
                    #![trigger ranges@[j]]
                    0 <= j < ranges@.len() ==> (ranges@[j].0 as int, ranges@[j].1 as int)
                        == single_shard(total, num_shards as int, j),
                forall|j: int| #![trigger lookups[j]] 0 <= j < shard ==> lookups[j] is Ok,
                rdma_ops@.len() == shard,
                forall|j: int|
                    #![trigger rdma_ops@[j]]
                    0 <= j < shard ==> rdma_ops@[j].0 < N && (
                        rdma_ops@[j].0 as int,
                        DomainEvent::Write {
                            id: transfer_id,
                            addr: rdma_ops@[j].2@,
                            op: rdma_ops@[j].1@,
                        },
                    ) == posts[j],
            decreases num_shards - shard,
        {
            let (offset, len) = ranges[shard];
            assert((offset as int, len as int) == single_shard(
                total,
                num_shards as int,
                shard as int,
            ));
            let i: usize = match request.domain {
                DomainGroupRouting::RoundRobinSharded { .. } => {
                    let next: usize = self.rr_next;
                    self.rr_next = (self.rr_next + 1) % N;
                    proof {
                        lemma_round_robin_step(rr, shard as int, N as int);
                    }
                    next
                },
                DomainGroupRouting::Pinned { domain_idx } => domain_idx as usize,
            };
            assert(i == request.domain.domain_of_shard(rr, shard as int, N as int));
            assert(lookups[shard as int] == old(self).domains[i as int].mem_desc(
                request.src_mr.ptr,
            ));
            let src_desc = match self.domains[i].get_mem_desc(request.src_mr.ptr) {
                Ok(desc) => desc,
                Err(error) => {
                    assert(fails_first_at(lookups, shard as int));
                    return Err(error);
                },
            };
            let entry = &request.dst_mr.addr_rkey_list[i];
            let op = WriteOp::Single(
                SingleWriteOp {
                    src_ptr: request.src_mr.ptr,
                    src_desc,
                    src_offset: request.src_offset + offset as u64,
                    length: len as u64,
                    imm_data: request.imm_data,
                    dst_ptr: request.dst_mr.ptr,
                    dst_rkey: entry.1,
                    dst_offset: request.dst_offset + offset as u64,
                },
            );
            rdma_ops.push((i, op, entry.0.clone()));
            shard = shard + 1;
        }
        assert(all_found(lookups));

        self.track(transfer_id, num_shards, tx_counter);
        let ghost start = self.histories();
        assert(posts.take(0) =~= Seq::<(int, DomainEvent)>::empty());
        assert(start =~= old(self).histories());
        for entry in it: rdma_ops
            invariant
                self.wf(),
                self.same_peers(old(self)),
                self.rr_next == request.domain.advanced(rr, num_shards as int, N as int),
                self.write_ops@ == old(self).write_ops@.insert(
                    transfer_id.0,
                    fresh_context(num_shards, tx_counter),
                ),
                posts.len() == num_shards,
                it.seq().len() == num_shards,
                it.seq() == rdma_ops@,
                forall|j: int|
                    #![trigger rdma_ops@[j]]
                    0 <= j < num_shards ==> rdma_ops@[j].0 < N && (
                        rdma_ops@[j].0 as int,
                        DomainEvent::Write {
                            id: transfer_id,
                            addr: rdma_ops@[j].2@,
                            op: rdma_ops@[j].1@,
                        },
                    ) == posts[j],
                self.histories() == posted(start, posts.take(it.index() as int)),
        {
            let (domain, op, addr) = entry;
            proof {
                lemma_posted_push(start, posts, it.index() as int);
            }
            self.post(domain, transfer_id, addr, op);
        }
        assert(posts.take(posts.len() as int) =~= posts);
        Ok(())
    }
}

/// A write takes the byte at the local address `from` to the remote address `to`.
pub open spec fn copies_byte(event: DomainEvent, from: int, to: int) -> bool {
    event matches DomainEvent::Write { op: Write::Single(write), .. } && {
        let b = from - (write.src_ptr + write.src_offset);
        0 <= b < write.length && to == write.dst_ptr + write.dst_offset + b
    }
}

/// An accepted contiguous write gives each domain of its shards one write, and the others
/// nothing. The shards are on successive domains, of one size, which is a multiple of 8192 and
/// less than that above an even share; only the last with bytes may be shorter, and those after
/// it have no bytes. Each write goes through the address and the key of its domain's own entry and has
/// the immediate; it reads registered memory of the source region, and is as far into the
/// destination as into the source.
pub proof fn contiguous_writes_keep_their_course<D: RdmaDomain, C, A, const N: usize>(
    after: DomainGroup<D, C, A, N>,
    before: DomainGroup<D, C, A, N>,
    id: TransferId,
    request: SingleTransferRequest,
    counter: Option<C>,
) -> (size: int)
    requires
        before.wf(),
        single_in_range(&request, N as int),
        after.single_submitted(&before, id, &request, counter, Ok(())),
    ensures
        after.continues(&before),
        ({
            let total = request.length as usize as int;
            let (shards, next) = match request.domain {
                DomainGroupRouting::RoundRobinSharded { num_shards } => (
                    num_shards as int,
                    (before.rr_next + num_shards) % (N as int),
                ),
                DomainGroupRouting::Pinned { .. } => (1, before.rr_next as int),
            };
            &&& after.rr_next == next
            &&& after.write_ops@[id.0].num_used_domains == shards
            &&& size % 8192 == 0
            &&& total > 0 ==> (size - 8192) * shards < total <= size * shards
            &&& forall|i: int|
                #![trigger after.given(&before, i)]
                0 <= i < N ==> match shard_on(request.domain, before.rr_next as int, i, N as int) {
                    Some(k) if k < shards => {
                        let given = after.given(&before, i);
                        let left = total - k * size;
                        &&& given.len() == 1
                        &&& given[0] matches DomainEvent::Write {
                            id: given_id,
                            addr,
                            op: Write::Single(write),
                        } && {
                            &&& given_id == id
                            &&& addr == request.dst_mr.addr_rkey_list@[i].0@
                            &&& write.dst_rkey == request.dst_mr.addr_rkey_list@[i].1
                            &&& write.imm_data == request.imm_data
                            &&& before.domains[i].mem_desc(request.src_mr.ptr) == Ok::<
                                MemoryRegionLocalDescriptor,
                                FabricLibError,
                            >(write.src_desc)
                            &&& write.src_ptr == request.src_mr.ptr
                            &&& write.dst_ptr == request.dst_mr.ptr
                            &&& write.src_offset - request.src_offset == write.dst_offset
                                - request.dst_offset
                            &&& left > 0 ==> write.src_offset - request.src_offset == k * size
                                && write.length > 0 && write.length <= size && (write.length == size
                                || write.length == left)
                            &&& left <= 0 ==> write.length == 0
                        }
                    },
                    _ => after.given(&before, i).len() == 0,
                }
        }),
{
    let n = N as int;
    let rr = before.rr_next as int;
    let total = request.length as usize as int;
    let shards = shard_count(request.domain);
    let size = shard_size(total, shards);
    let share = ceil_div(total, shards);
    let posts = before.single_posts(id, &request);
    let lookups = before.single_lookups(&request);
    assert(all_found(lookups));
    single_shards_cover(total, shards);
    lemma_ceil_div(total, shards);
    lemma_ceil_div(share, MIN_SHARD_SIZE as int);
    lemma_mul_le(share, size, shards);
    if total > 0 {
        lemma_mul_le(size - MIN_SHARD_SIZE, share - 1, shards);
    }
    lemma_shards_are_given(after, before, posts, request.domain, rr);
    assert forall|i: int| #![trigger after.given(&before, i)] 0 <= i < N implies match shard_on(
        request.domain,
        rr,
        i,
        n,
    ) {
        Some(k) if k < shards => {
            let given = after.given(&before, i);
            let left = total - k * size;
            &&& given.len() == 1
            &&& given[0] matches DomainEvent::Write {
                id: given_id,
                addr,
                op: Write::Single(write),
            } && {
                &&& given_id == id
                &&& addr == request.dst_mr.addr_rkey_list@[i].0@
                &&& write.dst_rkey == request.dst_mr.addr_rkey_list@[i].1
                &&& write.imm_data == request.imm_data
                &&& before.domains[i].mem_desc(request.src_mr.ptr) == Ok::<
                    MemoryRegionLocalDescriptor,
                    FabricLibError,
                >(write.src_desc)
                &&& write.src_ptr == request.src_mr.ptr
                &&& write.dst_ptr == request.dst_mr.ptr
                &&& write.src_offset - request.src_offset == write.dst_offset - request.dst_offset
                &&& left > 0 ==> write.src_offset - request.src_offset == k * size && write.length
                    > 0 && write.length <= size && (write.length == size || write.length == left)
                &&& left <= 0 ==> write.length == 0
            }
        },
        _ => after.given(&before, i).len() == 0,
    } by {
        if let Some(k) = shard_on(request.domain, rr, i, n) {
            if k < shards {
                lemma_steps_of_shard(request.domain, rr, i, n);
                assert(lookups[k] is Ok);
                assert(request.domain.domain_of_shard(rr, k, n) == i);
                let (offset, len) = single_shard(total, shards, k);
                assert(0 <= offset && offset + len <= total);
            }
        }
    }
    size
}

/// Every byte of an accepted contiguous write is taken from its place in the source to its place
/// in the destination by exactly one of the writes that the domains are given.
pub proof fn every_byte_reaches_its_destination<D: RdmaDomain, C, A, const N: usize>(
    after: DomainGroup<D, C, A, N>,
    before: DomainGroup<D, C, A, N>,
    id: TransferId,
    request: SingleTransferRequest,
    counter: Option<C>,
    byte: int,
) -> (carrier: int)
    requires
        before.wf(),
        single_in_range(&request, N as int),
        after.single_submitted(&before, id, &request, counter, Ok(())),
        0 <= byte < request.length as usize,
    ensures
        0 <= carrier < N,
        forall|i: int, e: int|
            #![trigger after.given(&before, i)[e]]
            0 <= i < N && 0 <= e < after.given(&before, i).len() ==> (copies_byte(
                after.given(&before, i)[e],
                request.src_mr.ptr + request.src_offset + byte,
                request.dst_mr.ptr + request.dst_offset + byte,
            ) <==> i == carrier && e == 0),
        after.given(&before, carrier).len() == 1,
{
    let n = N as int;
    let rr = before.rr_next as int;
    let total = request.length as usize as int;
    let shards = shard_count(request.domain);
    let size = contiguous_writes_keep_their_course(after, before, id, request, counter);
    if size <= 0 {
        lemma_mul_le(size, 0, shards);
    }
    lemma_fundamental_div_mod(byte, size);
    let k = byte / size;
    assert(size * k == k * size) by (nonlinear_arith);
    if k < 0 {
        lemma_mul_le(k, -1, size);
    }
    if k >= shards {
        lemma_mul_le(shards, k, size);
        assert(shards * size == size * shards) by (nonlinear_arith);
    }
    lemma_mul_step(k, size);
    let carrier = request.domain.domain_of_shard(rr, k, n);
    lemma_shard_of_domain(request.domain, rr, k, n);
    let from = request.src_mr.ptr + request.src_offset + byte;
    let to = request.dst_mr.ptr + request.dst_offset + byte;
    assert(after.given(&before, carrier).len() == 1);
    assert forall|i: int, e: int|
        #![trigger after.given(&before, i)[e]]
        0 <= i < N && 0 <= e < after.given(&before, i).len() implies (copies_byte(
        after.given(&before, i)[e],
        from,
        to,
    ) <==> i == carrier && e == 0) by {
        let given = after.given(&before, i);
        match shard_on(request.domain, rr, i, n) {
            Some(j) => {
                lemma_steps_of_shard(request.domain, rr, i, n);
                lemma_mul_step(j, size);
                if j < k {
                    lemma_mul_le(j + 1, k, size);
                }
                if j > k {
                    lemma_mul_le(k + 1, j, size);
                }
            },
            None => {},
        }
    }
    carrier
}

/// A contiguous write is accepted exactly if its descriptor has an entry for every domain, the
/// group has the domains that it asks for, and each domain of a shard knows the source region. A
/// refused one gives the domains nothing, and no transfer begins.
pub proof fn contiguous_write_is_accepted_if_it_can_be<D: RdmaDomain, C, A, const N: usize>(
    after: DomainGroup<D, C, A, N>,
    before: DomainGroup<D, C, A, N>,
    id: TransferId,
    request: SingleTransferRequest,
    counter: Option<C>,
    result: Result<(), FabricLibError>,
)
    requires
        before.wf(),
        single_in_range(&request, N as int),
        after.single_submitted(&before, id, &request, counter, result),
    ensures
        result is Ok <==> {
            &&& request.dst_mr.addr_rkey_list@.len() == N
            &&& match request.domain {
                DomainGroupRouting::RoundRobinSharded { num_shards } => num_shards <= N,
                DomainGroupRouting::Pinned { domain_idx } => domain_idx < N,
            }
            &&& forall|i: int|
                #![trigger before.domains[i]]
                0 <= i < N && (match request.domain {
                    DomainGroupRouting::RoundRobinSharded { num_shards } => (i - before.rr_next) % (
                    N as int) < num_shards,
                    DomainGroupRouting::Pinned { domain_idx } => i == domain_idx,
                }) ==> before.domains[i].mem_desc(request.src_mr.ptr) is Ok
        },
        result is Err ==> after.domains == before.domains && after.write_ops == before.write_ops,
{
    let n = N as int;
    let rr = before.rr_next as int;
    let shards = shard_count(request.domain);
    let lookups = before.single_lookups(&request);
    if single_fault(&request, n) is None {
        assert forall|i: int|
            #![trigger before.domains[i]]
            0 <= i < N && all_found(lookups) && (match request.domain {
                DomainGroupRouting::RoundRobinSharded { num_shards } => (i - before.rr_next) % n
                    < num_shards,
                DomainGroupRouting::Pinned { domain_idx } => i == domain_idx,
            }) implies before.domains[i].mem_desc(request.src_mr.ptr) is Ok by {
            lemma_steps_of_shard(request.domain, rr, i, n);
            let k = shard_on(request.domain, rr, i, n)->Some_0;
            assert(lookups[k] is Ok);
        }
        assert forall|k: int|
            #![trigger lookups[k]]
            0 <= k < lookups.len() && (forall|i: int|
                #![trigger before.domains[i]]
                0 <= i < N && (match request.domain {
                    DomainGroupRouting::RoundRobinSharded { num_shards } => (i - before.rr_next) % n
                        < num_shards,
                    DomainGroupRouting::Pinned { domain_idx } => i == domain_idx,
                }) ==> before.domains[i].mem_desc(request.src_mr.ptr) is Ok) implies lookups[k] is Ok by {
            lemma_shard_of_domain(request.domain, rr, k, n);
            let i = request.domain.domain_of_shard(rr, k, n);
            assert(lookups[k] == before.domains[i].mem_desc(request.src_mr.ptr));
        }
    }
}

} // verus!
