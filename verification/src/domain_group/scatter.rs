//! Writes to many peers.
use std::sync::Arc;

use vstd::arithmetic::div_mod::lemma_small_mod;
use vstd::prelude::*;

use crate::api::{
    GroupTransferRouting, MemoryRegionLocalDescriptor, PeerGroupHandle, ScatterTransferRequest,
    TransferId,
};
use crate::domain_group::delivery::{lemma_one_for_each, lemma_only_one, steps_to};
use crate::domain_group::{
    DomainGroup, Lookups, all_found, first_failure, fresh_context, lemma_posted_push, posted,
};
use crate::error::FabricLibError;
use crate::provider::{DomainEvent, RdmaDomain};
use crate::rdma_op::{GroupWriteOp, ScatterGroupWriteOp};
use crate::sharding::{
    ceil_div, divide_evenly, even_range, even_ranges_cover, even_ranges_partition, lemma_ceil_div,
    lemma_mul_step, lemma_range_count, range_count,
};

verus! {

/// There is a domain to serve the peers, and the one that is asked for exists.
pub open spec fn scatter_in_range(request: &ScatterTransferRequest, n: int) -> bool {
    match request.domain {
        GroupTransferRouting::AllDomainsShardPeers => n > 0,
        GroupTransferRouting::AllDomainsShardBytes => true,
        GroupTransferRouting::Single { domain_idx } => domain_idx < n,
    }
}

/// How many domains take part.
pub open spec fn scatter_count(request: &ScatterTransferRequest, n: int) -> nat {
    match request.domain {
        GroupTransferRouting::AllDomainsShardPeers => range_count(request.dsts@.len() as int, n),
        GroupTransferRouting::AllDomainsShardBytes => n as nat,
        GroupTransferRouting::Single { .. } => 1,
    }
}

/// The domain that takes the part `k`.
pub open spec fn scatter_domain(request: &ScatterTransferRequest, k: int) -> int {
    match request.domain {
        GroupTransferRouting::Single { domain_idx } => domain_idx as int,
        _ => k,
    }
}

/// The write of the part `k`: a range of the peers, a part of the bytes of every peer, or
/// everything.
pub open spec fn scatter_write(
    request: &ScatterTransferRequest,
    n: int,
    k: int,
    src_desc: MemoryRegionLocalDescriptor,
) -> ScatterGroupWriteOp {
    let peers = request.dsts@.len() as int;
    let (beg, end) = match request.domain {
        GroupTransferRouting::AllDomainsShardPeers => even_range(peers, n, k),
        _ => (0, peers),
    };
    let (shards, shard) = match request.domain {
        GroupTransferRouting::AllDomainsShardBytes => (n as usize as u32, k as usize as u32),
        _ => (1, 0),
    };
    ScatterGroupWriteOp {
        domain_idx: scatter_domain(request, k) as usize,
        src_ptr: request.src_mr.ptr,
        src_desc,
        imm_data: request.imm_data,
        dsts: request.dsts,
        dst_beg: beg as usize,
        dst_end: end as usize,
        byte_shards: shards,
        byte_shard_idx: shard,
    }
}

/// Every peer of a scatter is served in full: by one domain, or, if the bytes are divided, by
/// every domain with a part of its own.
pub proof fn every_peer_is_served(
    request: &ScatterTransferRequest,
    n: int,
    peer: int,
    src_desc: MemoryRegionLocalDescriptor,
) -> (k: int)
    requires
        scatter_in_range(request, n),
        0 < n <= u32::MAX,
        0 <= peer < request.dsts@.len(),
    ensures
        0 <= k < scatter_count(request, n),
        forall|j: int|
            #![trigger scatter_write(request, n, j, src_desc)]
            0 <= j < scatter_count(request, n) ==> {
                let write = scatter_write(request, n, j, src_desc);
                if request.domain is AllDomainsShardBytes {
                    &&& write.dst_beg <= peer < write.dst_end
                    &&& write.byte_shards == scatter_count(request, n)
                    &&& write.byte_shard_idx == j
                } else {
                    &&& write.dst_beg <= peer < write.dst_end <==> j == k
                    &&& write.byte_shards == 1
                    &&& write.byte_shard_idx == 0
                }
            },
{
    let peers = request.dsts@.len() as int;
    assert(peers == request.dsts.len());
    even_ranges_partition(peers, n);
    let cover = even_ranges_cover(peers, n, peer);
    let k = if request.domain is AllDomainsShardPeers {
        cover
    } else {
        0
    };
    assert forall|j: int|
        #![trigger scatter_write(request, n, j, src_desc)]
        0 <= j < scatter_count(request, n) && request.domain is AllDomainsShardPeers implies {
        let write = scatter_write(request, n, j, src_desc);
        write.dst_beg <= peer < write.dst_end <==> j == k
    } by {
        let (beg, end) = even_range(peers, n, j);
        assert(0 <= beg < end <= peers);
    }
    k
}

impl<D: RdmaDomain, C, A, const N: usize> DomainGroup<D, C, A, N> {
    /// Why the group refuses a scatter.
    pub open spec fn scatter_fault(&self, request: &ScatterTransferRequest) -> Option<
        FabricLibError,
    > {
        if request.dsts@.len() == 0 {
            Some(FabricLibError::Custom("Empty scatter targets"))
        } else {
            match request.dst_handle {
                None => None,
                Some(handle) => if !self.peer_groups@.contains_key(handle.0) {
                    Some(FabricLibError::Custom("PeerGroupHandle not found"))
                } else if request.dsts@.len() != self.peer_groups@[handle.0].addrs@.len() {
                    Some(
                        FabricLibError::Custom(
                            "Number of scatter targets must match the number of peer group addresses",
                        ),
                    )
                } else {
                    None
                },
            }
        }
    }

    /// The source lookups of a scatter, one for each domain that takes part.
    pub open spec fn scatter_lookups(&self, request: &ScatterTransferRequest) -> Lookups {
        Seq::new(
            scatter_count(request, N as int),
            |k: int| self.domains[scatter_domain(request, k)].mem_desc(request.src_mr.ptr),
        )
    }

    /// What a scatter hands to the domains.
    pub open spec fn scatter_posts(&self, id: TransferId, request: &ScatterTransferRequest) -> Seq<
        (int, DomainEvent),
    > {
        Seq::new(
            scatter_count(request, N as int),
            |k: int|
                (
                    scatter_domain(request, k),
                    DomainEvent::GroupWrite {
                        id,
                        peers: request.dst_handle,
                        op: GroupWriteOp::Scatter(
                            scatter_write(
                                request,
                                N as int,
                                k,
                                self.scatter_lookups(request)[k]->Ok_0,
                            ),
                        ),
                    },
                ),
        )
    }

    /// Hands one write for many peers to one domain.
    pub(crate) fn post_group(
        &mut self,
        domain: usize,
        id: TransferId,
        peers: Option<PeerGroupHandle>,
        op: GroupWriteOp,
    )
        requires
            old(self).wf(),
            domain < N,
        ensures
            final(self).wf(),
            final(self).rr_next == old(self).rr_next,
            final(self).same_tables(old(self)),
            final(self).histories() == old(self).histories().update(
                domain as int,
                old(self).histories()[domain as int].push(
                    DomainEvent::GroupWrite { id, peers, op },
                ),
            ),
    {
        self.domains[domain].submit_group_write(id, peers, op);
        assert(self.histories() =~= old(self).histories().update(
            domain as int,
            old(self).histories()[domain as int].push(DomainEvent::GroupWrite { id, peers, op }),
        ));
    }

    /// What becomes of a request for a scatter.
    pub open spec fn scatter_submitted(
        &self,
        before: &Self,
        transfer_id: TransferId,
        request: &ScatterTransferRequest,
        tx_counter: Option<C>,
        result: Result<(), FabricLibError>,
    ) -> bool {
        match before.scatter_fault(request) {
            Some(fault) => result == Err::<(), FabricLibError>(fault) && *self == *before,
            None => if all_found(before.scatter_lookups(request)) {
                &&& result is Ok
                &&& self.rr_next == before.rr_next
                &&& self.same_peers(before)
                &&& self.write_ops@ == before.write_ops@.insert(
                    transfer_id.0,
                    fresh_context(scatter_count(request, N as int) as usize, tx_counter),
                )
                &&& self.histories() == posted(
                    before.histories(),
                    before.scatter_posts(transfer_id, request),
                )
            } else {
                &&& first_failure(before.scatter_lookups(request), result)
                &&& *self == *before
            },
        }
    }

    /// Divides a scatter between domains, by peers or by bytes.
    ///
    /// Every domain is asked for the source before any is given a write: unless all know it,
    /// nothing changes.
    pub fn submit_scatter_transfer_request(
        &mut self,
        transfer_id: TransferId,
        request: ScatterTransferRequest,
        tx_counter: Option<C>,
    ) -> (result: Result<(), FabricLibError>)
        requires
            old(self).wf(),
            old(self).scatter_fault(&request) is None ==> scatter_in_range(&request, N as int),
        ensures
            final(self).wf(),
            final(self).scatter_submitted(old(self), transfer_id, &request, tx_counter, result),
    {
        let peers: usize = request.dsts.len();
        if peers == 0 {
            return Err(FabricLibError::Custom("Empty scatter targets"));
        }
        if let Some(handle) = request.dst_handle {
            match self.peer_groups.get(&handle.0) {
                None => {
                    return Err(FabricLibError::Custom("PeerGroupHandle not found"));
                },
                Some(group) => {
                    if peers != group.addrs.len() {
                        return Err(
                            FabricLibError::Custom(
                                "Number of scatter targets must match the number of peer group addresses",
                            ),
                        );
                    }
                },
            }
        }
        let ghost lookups = self.scatter_lookups(&request);
        let ghost posts = self.scatter_posts(transfer_id, &request);
        let ranges: Vec<(usize, usize)> = match request.domain {
            GroupTransferRouting::AllDomainsShardPeers => divide_evenly(peers, N),
            _ => Vec::new(),
        };
        let parts: usize = match request.domain {
            GroupTransferRouting::AllDomainsShardPeers => ranges.len(),
            GroupTransferRouting::AllDomainsShardBytes => N,
            GroupTransferRouting::Single { .. } => 1,
        };
        proof {
            if N > 0 {
                lemma_range_count(peers as int, N as int);
            }
        }
        let mut rdma_ops: Vec<(usize, GroupWriteOp)> = Vec::new();
        let mut part: usize = 0;
        while part < parts
            invariant
                part <= parts,
                parts == scatter_count(&request, N as int),
                request.domain !is Single ==> parts <= N,
                scatter_in_range(&request, N as int),
                peers == request.dsts@.len(),
                *self == *old(self),
                self.wf(),
                self.scatter_fault(&request) is None,
                lookups == self.scatter_lookups(&request),
                posts == self.scatter_posts(transfer_id, &request),
                request.domain is AllDomainsShardPeers ==> ranges@.len() == parts,
                forall|j: int|
                    #![trigger ranges@[j]]
                    request.domain is AllDomainsShardPeers && 0 <= j < ranges@.len() ==> (
                        ranges@[j].0 as int,
                        ranges@[j].1 as int,
                    ) == even_range(peers as int, N as int, j),
                forall|j: int| #![trigger lookups[j]] 0 <= j < part ==> lookups[j] is Ok,
                rdma_ops@.len() == part,
                forall|j: int|
                    #![trigger rdma_ops@[j]]
                    0 <= j < part ==> rdma_ops@[j].0 < N && (
                        rdma_ops@[j].0 as int,
                        DomainEvent::GroupWrite {
                            id: transfer_id,
                            peers: request.dst_handle,
                            op: rdma_ops@[j].1,
                        },
                    ) == posts[j],
            decreases parts - part,
        {
            let domain_idx: usize = match request.domain {
                GroupTransferRouting::Single { domain_idx } => domain_idx as usize,
                _ => part,
            };
            assert(lookups[part as int] == self.domains[domain_idx as int].mem_desc(
                request.src_mr.ptr,
            ));
            let src_desc = match self.domains[domain_idx].get_mem_desc(request.src_mr.ptr) {
                Ok(desc) => desc,
                Err(error) => {
                    return Err(error);
                },
            };
            let (dst_beg, dst_end): (usize, usize) = match request.domain {
                GroupTransferRouting::AllDomainsShardPeers => ranges[part],
                _ => (0, peers),
            };
            let (byte_shards, byte_shard_idx): (u32, u32) = match request.domain {
                GroupTransferRouting::AllDomainsShardBytes => (N as u32, part as u32),
                _ => (1, 0),
            };
            let op = GroupWriteOp::Scatter(
                ScatterGroupWriteOp {
                    domain_idx,
                    src_ptr: request.src_mr.ptr,
                    src_desc,
                    imm_data: request.imm_data,
                    dsts: Arc::clone(&request.dsts),
                    dst_beg,
                    dst_end,
                    byte_shards,
                    byte_shard_idx,
                },
            );
            rdma_ops.push((domain_idx, op));
            part = part + 1;
        }
        assert(all_found(lookups));

        self.track(transfer_id, parts, tx_counter);
        let ghost start = self.histories();
        assert(posts.take(0) =~= Seq::<(int, DomainEvent)>::empty());
        assert(start =~= old(self).histories());
        for entry in it: rdma_ops
            invariant
                self.wf(),
                self.same_peers(old(self)),
                self.rr_next == old(self).rr_next,
                self.write_ops@ == old(self).write_ops@.insert(
                    transfer_id.0,
                    fresh_context(parts, tx_counter),
                ),
                posts.len() == parts,
                it.seq().len() == parts,
                it.seq() == rdma_ops@,
                forall|j: int|
                    #![trigger rdma_ops@[j]]
                    0 <= j < parts ==> rdma_ops@[j].0 < N && (
                        rdma_ops@[j].0 as int,
                        DomainEvent::GroupWrite {
                            id: transfer_id,
                            peers: request.dst_handle,
                            op: rdma_ops@[j].1,
                        },
                    ) == posts[j],
                self.histories() == posted(start, posts.take(it.index() as int)),
        {
            let (domain, op) = entry;
            proof {
                lemma_posted_push(start, posts, it.index() as int);
            }
            self.post_group(domain, transfer_id, request.dst_handle, op);
        }
        assert(posts.take(posts.len() as int) =~= posts);
        Ok(())
    }
}

/// An accepted scatter gives each domain that takes part one write, and the others nothing: the
/// first `count` domains serve `size` peers each, an even share, but the last may serve fewer; or
/// every domain serves all peers with its own part of the bytes; or one domain serves all. Each
/// write names the peers of the request, their handle and the immediate, and reads registered
/// memory of the source region.
pub proof fn scattered_writes_keep_their_course<D: RdmaDomain, C, A, const N: usize>(
    after: DomainGroup<D, C, A, N>,
    before: DomainGroup<D, C, A, N>,
    id: TransferId,
    request: ScatterTransferRequest,
    counter: Option<C>,
) -> (division: (int, int))
    requires
        before.wf(),
        0 < N <= u32::MAX,
        scatter_in_range(&request, N as int),
        after.scatter_submitted(&before, id, &request, counter, Ok(())),
    ensures
        after.continues(&before),
        after.rr_next == before.rr_next,
        ({
            let (count, size) = division;
            let peers = request.dsts@.len() as int;
            &&& after.write_ops@[id.0].num_used_domains == match request.domain {
                GroupTransferRouting::AllDomainsShardPeers => count,
                GroupTransferRouting::AllDomainsShardBytes => N as int,
                GroupTransferRouting::Single { .. } => 1,
            }
            &&& 0 < count <= N
            &&& (size - 1) * N < peers <= size * N
            &&& (count - 1) * size < peers <= count * size
            &&& forall|i: int|
                #![trigger after.given(&before, i)]
                0 <= i < N ==> {
                    let given = after.given(&before, i);
                    let part = match request.domain {
                        GroupTransferRouting::AllDomainsShardPeers => i < count,
                        GroupTransferRouting::AllDomainsShardBytes => true,
                        GroupTransferRouting::Single { domain_idx } => i == domain_idx,
                    };
                    if part {
                        &&& given.len() == 1
                        &&& given[0] matches DomainEvent::GroupWrite {
                            id: given_id,
                            peers: handle,
                            op: GroupWriteOp::Scatter(write),
                        } && {
                            &&& given_id == id
                            &&& handle == request.dst_handle
                            &&& write.domain_idx == i
                            &&& write.imm_data == request.imm_data
                            &&& write.src_ptr == request.src_mr.ptr
                            &&& before.domains[i].mem_desc(request.src_mr.ptr) == Ok::<
                                MemoryRegionLocalDescriptor,
                                FabricLibError,
                            >(write.src_desc)
                            &&& write.dsts@ == request.dsts@
                            &&& match request.domain {
                                GroupTransferRouting::AllDomainsShardPeers => {
                                    &&& write.dst_beg == i * size
                                    &&& write.dst_beg < write.dst_end <= peers
                                    &&& write.dst_end == (i + 1) * size || (write.dst_end == peers && peers < (i
                                        + 1) * size)
                                },
                                _ => write.dst_beg == 0 && write.dst_end == peers,
                            }
                            &&& match request.domain {
                                GroupTransferRouting::AllDomainsShardBytes => write.byte_shards == N
                                    && write.byte_shard_idx == i,
                                _ => write.byte_shards == 1 && write.byte_shard_idx == 0,
                            }
                        }
                    } else {
                        given.len() == 0
                    }
                }
        }),
{
    let n = N as int;
    let peers = request.dsts@.len() as int;
    assert(peers == request.dsts.len());
    let count = range_count(peers, n) as int;
    let size = ceil_div(peers, n);
    let posts = before.scatter_posts(id, &request);
    let lookups = before.scatter_lookups(&request);
    assert(all_found(lookups));
    lemma_ceil_div(peers, n);
    lemma_range_count(peers, n);
    even_ranges_partition(peers, n);
    if request.domain is Single {
        assert(posts[0].0 == scatter_domain(&request, 0));
        lemma_only_one(after, before, posts);
        assert(lookups[0] is Ok);
    } else {
        assert forall|k: int|
            #![trigger posts[k]]
            0 <= k < posts.len() implies posts[k].0 == (0 + k) % n by {
            lemma_small_mod(k as nat, n as nat);
        }
        lemma_one_for_each(after, before, posts, 0);
    }
    assert forall|i: int| #![trigger after.given(&before, i)] 0 <= i < N implies {
        let given = after.given(&before, i);
        let part = match request.domain {
            GroupTransferRouting::AllDomainsShardPeers => i < count,
            GroupTransferRouting::AllDomainsShardBytes => true,
            GroupTransferRouting::Single { domain_idx } => i == domain_idx,
        };
        if part {
            &&& given.len() == 1
            &&& given[0] matches DomainEvent::GroupWrite {
                id: given_id,
                peers: handle,
                op: GroupWriteOp::Scatter(write),
            } && {
                &&& given_id == id
                &&& handle == request.dst_handle
                &&& write.domain_idx == i
                &&& write.imm_data == request.imm_data
                &&& write.src_ptr == request.src_mr.ptr
                &&& before.domains[i].mem_desc(request.src_mr.ptr) == Ok::<
                    MemoryRegionLocalDescriptor,
                    FabricLibError,
                >(write.src_desc)
                &&& write.dsts@ == request.dsts@
                &&& match request.domain {
                    GroupTransferRouting::AllDomainsShardPeers => {
                        &&& write.dst_beg == i * size
                        &&& write.dst_beg < write.dst_end <= peers
                        &&& write.dst_end == (i + 1) * size || (write.dst_end == peers && peers < (i
                            + 1) * size)
                    },
                    _ => write.dst_beg == 0 && write.dst_end == peers,
                }
                &&& match request.domain {
                    GroupTransferRouting::AllDomainsShardBytes => write.byte_shards == N
                        && write.byte_shard_idx == i,
                    _ => write.byte_shards == 1 && write.byte_shard_idx == 0,
                }
            }
        } else {
            given.len() == 0
        }
    } by {
        lemma_small_mod(i as nat, n as nat);
        assert(steps_to(0, i, n) == i);
        if request.domain !is Single && i < posts.len() {
            assert(lookups[i] is Ok);
            let (beg, end) = even_range(peers, n, i);
            lemma_mul_step(i, size);
        }
    }
    (count, size)
}

/// A scatter is accepted only if it has peers and, if it names a known group, as many as that
/// group has. If the domains know the source region as well, it is accepted. A refused one
/// changes nothing.
pub proof fn scatter_is_accepted_if_it_can_be<D: RdmaDomain, C, A, const N: usize>(
    after: DomainGroup<D, C, A, N>,
    before: DomainGroup<D, C, A, N>,
    id: TransferId,
    request: ScatterTransferRequest,
    counter: Option<C>,
    result: Result<(), FabricLibError>,
)
    requires
        before.wf(),
        0 < N,
        before.scatter_fault(&request) is None ==> scatter_in_range(&request, N as int),
        after.scatter_submitted(&before, id, &request, counter, result),
    ensures
        ({
            let well_formed = {
                &&& request.dsts@.len() > 0
                &&& request.dst_handle matches Some(handle) ==> handle.0
                    < before.next_peer_group_handle && before.peer_groups@[handle.0].addrs@.len()
                    == request.dsts@.len()
            };
            let known = forall|i: int|
                #![trigger before.domains[i]]
                0 <= i < N ==> before.domains[i].mem_desc(request.src_mr.ptr) is Ok;
            &&& result is Ok ==> well_formed
            &&& well_formed && known ==> result is Ok
            &&& result is Err ==> after == before
        }),
{
    let n = N as int;
    let lookups = before.scatter_lookups(&request);
    if let Some(handle) = request.dst_handle {
        assert(before.peer_groups@.contains_key(handle.0) <==> handle.0
            < before.next_peer_group_handle);
    }
    if before.scatter_fault(&request) is None && (forall|i: int|
        #![trigger before.domains[i]]
        0 <= i < N ==> before.domains[i].mem_desc(request.src_mr.ptr) is Ok) {
        lemma_range_count(request.dsts@.len() as int, n);
        assert forall|k: int| #![trigger lookups[k]] 0 <= k < lookups.len() implies lookups[k] is Ok by {
            assert(before.domains[scatter_domain(&request, k)].mem_desc(request.src_mr.ptr) is Ok);
        }
        assert(all_found(lookups));
    }
}

} // verus!
