//! Immediates, to one peer or to many.
use vstd::arithmetic::div_mod::{lemma_fundamental_div_mod, lemma_small_mod};
use vstd::prelude::*;

use crate::api::{DomainGroupRouting, MemoryRegionDescriptor, TransferId};
use crate::domain_group::delivery::{is_posted, lemma_posts_are_given, lemma_steps_to};
use crate::domain_group::{DomainGroup, fresh_context, lemma_posted_push, posted, wrap_add};
use crate::error::FabricLibError;
use crate::provider::{DomainEvent, RdmaDomain};
use crate::rdma_op::{ImmWriteOp, Write, WriteOp};
use crate::sharding::{ceil_div, div_ceil, lemma_ceil_div, lemma_mul_le, lemma_mul_step, min_int};

verus! {

/// Every descriptor covers exactly `n` domains.
pub open spec fn all_of_width(dst_mrs: Seq<MemoryRegionDescriptor>, n: int) -> bool {
    forall|j: int| #![trigger dst_mrs[j]] 0 <= j < dst_mrs.len() ==> dst_mrs[j].width() == n
}

/// Why `n` domains do not follow a routing for immediates.
pub open spec fn imm_routing_fault(routing: DomainGroupRouting, n: int) -> Option<FabricLibError> {
    match routing {
        DomainGroupRouting::RoundRobinSharded { num_shards } => if num_shards != 1 {
            Some(
                FabricLibError::Custom(
                    "DomainGroupRouting::RoundRobinSharded should have num_shards = 1 for BarrierTransferRequest",
                ),
            )
        } else {
            None
        },
        DomainGroupRouting::Pinned { domain_idx } => if domain_idx >= n {
            Some(
                FabricLibError::Custom("DomainGroupRouting::Pinned.domain_idx is out of bounds"),
            )
        } else {
            None
        },
    }
}

/// There is a peer, and a domain to serve it.
pub open spec fn imm_in_range(
    dst_mrs: Seq<MemoryRegionDescriptor>,
    routing: DomainGroupRouting,
    n: int,
) -> bool {
    all_of_width(dst_mrs, n) && imm_routing_fault(routing, n) is None ==> dst_mrs.len() > 0 && n > 0
}

/// How many peers one domain serves.
pub open spec fn imm_share(peers: int, routing: DomainGroupRouting, n: int) -> int {
    match routing {
        DomainGroupRouting::RoundRobinSharded { .. } => ceil_div(peers, n),
        DomainGroupRouting::Pinned { .. } => peers,
    }
}

/// The domain that serves the first peers.
pub open spec fn imm_first_domain(routing: DomainGroupRouting, rr: int) -> int {
    match routing {
        DomainGroupRouting::RoundRobinSharded { .. } => rr,
        DomainGroupRouting::Pinned { domain_idx } => domain_idx as int,
    }
}

/// What the domains are handed: peers are served in blocks of `imm_share`, and the block `b`
/// goes from the domain `b` places after the first to the peers' own domain `b`.
pub open spec fn imm_posts(
    id: TransferId,
    imm_data: u32,
    dst_mrs: Seq<MemoryRegionDescriptor>,
    routing: DomainGroupRouting,
    rr: int,
    n: int,
) -> Seq<(int, DomainEvent)> {
    Seq::new(
        dst_mrs.len(),
        |j: int|
            {
                let block = j / imm_share(dst_mrs.len() as int, routing, n);
                (
                    (imm_first_domain(routing, rr) + block) % n,
                    DomainEvent::Write {
                        id,
                        addr: dst_mrs[j].addr(block),
                        op: Write::Imm(
                            ImmWriteOp {
                                imm_data,
                                dst_ptr: dst_mrs[j].ptr,
                                dst_rkey: dst_mrs[j].rkey(block),
                            },
                        ),
                    },
                )
            },
    )
}

/// There are no more blocks than domains.
proof fn lemma_block_in_range(j: int, peers: int, routing: DomainGroupRouting, n: int)
    requires
        0 <= j < peers,
        0 < n,
    ensures
        imm_share(peers, routing, n) > 0,
        0 <= j / imm_share(peers, routing, n) < n,
        routing is Pinned ==> j / imm_share(peers, routing, n) == 0,
{
    let share = imm_share(peers, routing, n);
    lemma_ceil_div(peers, n);
    lemma_fundamental_div_mod(j, share);
    let block = j / share;
    assert(share * block == block * share) by (nonlinear_arith);
    if block < 0 {
        lemma_mul_le(block, -1, share);
    }
    if routing is Pinned {
        if block > 0 {
            lemma_mul_le(1, block, share);
        }
    } else if block >= n {
        lemma_mul_le(n, block, share);
        assert(n * share == share * n) by (nonlinear_arith);
    }
}

impl<D: RdmaDomain, C, A, const N: usize> DomainGroup<D, C, A, N> {
    /// What becomes of a request to deliver an immediate.
    pub open spec fn imm_submitted(
        &self,
        before: &Self,
        transfer_id: TransferId,
        imm_data: u32,
        dst_mrs: Seq<MemoryRegionDescriptor>,
        domain: DomainGroupRouting,
        tx_counter: Option<C>,
        result: Result<(), FabricLibError>,
    ) -> bool {
        if !all_of_width(dst_mrs, N as int) {
            &&& result == Err::<(), FabricLibError>(
                FabricLibError::Custom(
                    "Number of target addresses must match the number of domains",
                ),
            )
            &&& *self == *before
        } else {
            &&& self.same_peers(before)
            &&& self.write_ops@ == before.write_ops@.insert(
                transfer_id.0,
                fresh_context(dst_mrs.len() as usize, tx_counter),
            )
            &&& match imm_routing_fault(domain, N as int) {
                Some(fault) => {
                    &&& result == Err::<(), FabricLibError>(fault)
                    &&& self.domains == before.domains
                    &&& self.rr_next == before.rr_next
                },
                None => {
                    &&& result is Ok
                    &&& self.rr_next == domain.advanced(
                        before.rr_next as int,
                        min_int(N as int, dst_mrs.len() as int),
                        N as int,
                    )
                    &&& self.histories() == posted(
                        before.histories(),
                        imm_posts(
                            transfer_id,
                            imm_data,
                            dst_mrs,
                            domain,
                            before.rr_next as int,
                            N as int,
                        ),
                    )
                },
            }
        }
    }

    /// Delivers an immediate to each peer.
    ///
    /// Descriptors of the wrong width are refused before anything changes. A routing that
    /// cannot be followed is refused after the transfer has been entered in the table.
    pub fn submit_imm_transfer_request(
        &mut self,
        transfer_id: TransferId,
        imm_data: u32,
        dst_mrs: &[MemoryRegionDescriptor],
        domain: DomainGroupRouting,
        tx_counter: Option<C>,
    ) -> (result: Result<(), FabricLibError>)
        requires
            old(self).wf(),
            imm_in_range(dst_mrs@, domain, N as int),
        ensures
            final(self).wf(),
            final(self).imm_submitted(
                old(self),
                transfer_id,
                imm_data,
                dst_mrs@,
                domain,
                tx_counter,
                result,
            ),
    {
        let peers: usize = dst_mrs.len();
        let mut checked: usize = 0;
        while checked < peers
            invariant
                checked <= peers,
                peers == dst_mrs@.len(),
                *self == *old(self),
                self.wf(),
                forall|j: int| #![trigger dst_mrs@[j]] 0 <= j < checked ==> dst_mrs@[j].width() == N,
            decreases peers - checked,
        {
            if dst_mrs[checked].addr_rkey_list.len() != N {
                assert(dst_mrs@[checked as int].width() != N);
                return Err(
                    FabricLibError::Custom(
                        "Number of target addresses must match the number of domains",
                    ),
                );
            }
            checked = checked + 1;
        }

        self.track(transfer_id, peers, tx_counter);

        let ghost rr = self.rr_next as int;
        let (first_domain, share): (usize, usize) = match domain {
            DomainGroupRouting::RoundRobinSharded { num_shards } => {
                if num_shards != 1 {
                    return Err(
                        FabricLibError::Custom(
                            "DomainGroupRouting::RoundRobinSharded should have num_shards = 1 for BarrierTransferRequest",
                        ),
                    );
                }
                let first: usize = self.rr_next;
                let step: usize = if N < peers {
                    N
                } else {
                    peers
                };
                self.rr_next = wrap_add(first, step, N);
                (first, div_ceil(peers, N))
            },
            DomainGroupRouting::Pinned { domain_idx } => {
                if domain_idx as usize >= N {
                    return Err(
                        FabricLibError::Custom(
                            "DomainGroupRouting::Pinned.domain_idx is out of bounds",
                        ),
                    );
                }
                (domain_idx as usize, peers)
            },
        };

        let ghost posts = imm_posts(transfer_id, imm_data, dst_mrs@, domain, rr, N as int);
        let ghost start = old(self).histories();
        assert(posts.take(0) =~= Seq::<(int, DomainEvent)>::empty());
        assert(self.histories() =~= start);
        let mut j: usize = 0;
        while j < peers
            invariant
                j <= peers,
                peers == dst_mrs@.len(),
                0 < N,
                first_domain < N,
                all_of_width(dst_mrs@, N as int),
                share == imm_share(peers as int, domain, N as int),
                first_domain == imm_first_domain(domain, rr),
                posts == imm_posts(transfer_id, imm_data, dst_mrs@, domain, rr, N as int),
                self.wf(),
                self.same_peers(old(self)),
                self.rr_next == domain.advanced(
                    rr,
                    min_int(N as int, peers as int),
                    N as int,
                ),
                self.write_ops@ == old(self).write_ops@.insert(
                    transfer_id.0,
                    fresh_context(peers, tx_counter),
                ),
                self.histories() == posted(start, posts.take(j as int)),
            decreases peers - j,
        {
            proof {
                lemma_block_in_range(j as int, peers as int, domain, N as int);
            }
            let block: usize = j / share;
            let entry = &dst_mrs[j].addr_rkey_list[block];
            let op = WriteOp::Imm(
                ImmWriteOp { imm_data, dst_ptr: dst_mrs[j].ptr, dst_rkey: entry.1 },
            );
            let i: usize = wrap_add(first_domain, block, N);
            proof {
                lemma_posted_push(start, posts, j as int);
            }
            self.post(i, transfer_id, entry.0.clone(), op);
            j = j + 1;
        }
        assert(posts.take(posts.len() as int) =~= posts);
        Ok(())
    }
}

/// An accepted immediate for many peers gives the domains one write for each peer and nothing
/// else. A round robin serves the peers in blocks of an even share, each from the next domain;
/// a pinned one serves all from its domain. Each write has the immediate and goes through the
/// address and the key of one and the same entry of its own peer: the one whose number is that
/// of the block.
pub proof fn immediates_reach_every_peer<D: RdmaDomain, C, A, const N: usize>(
    after: DomainGroup<D, C, A, N>,
    before: DomainGroup<D, C, A, N>,
    id: TransferId,
    imm_data: u32,
    dst_mrs: Seq<MemoryRegionDescriptor>,
    domain: DomainGroupRouting,
    counter: Option<C>,
) -> (served: (Seq<(int, int)>, int))
    requires
        before.wf(),
        dst_mrs.len() <= usize::MAX,
        imm_in_range(dst_mrs, domain, N as int),
        after.imm_submitted(&before, id, imm_data, dst_mrs, domain, counter, Ok(())),
    ensures
        after.continues(&before),
        after.write_ops@[id.0].num_used_domains == dst_mrs.len(),
        ({
            let (places, size) = served;
            let peers = dst_mrs.len() as int;
            &&& after.rr_next == match domain {
                DomainGroupRouting::RoundRobinSharded { .. } => (before.rr_next + if peers < N {
                    peers
                } else {
                    N as int
                }) % (N as int),
                DomainGroupRouting::Pinned { .. } => before.rr_next as int,
            }
            &&& domain is RoundRobinSharded ==> (size - 1) * N < peers <= size * N
            &&& places.len() == peers
            &&& forall|j: int|
                #![trigger places[j]]
                0 <= j < peers ==> {
                    let (i, e) = places[j];
                    let block = match domain {
                        DomainGroupRouting::RoundRobinSharded { .. } => (i - before.rr_next) % (
                        N as int),
                        DomainGroupRouting::Pinned { .. } => 0,
                    };
                    &&& 0 <= i < N
                    &&& 0 <= e < after.given(&before, i).len()
                    &&& domain matches DomainGroupRouting::Pinned { domain_idx } ==> i == domain_idx
                    &&& domain is RoundRobinSharded ==> block * size <= j < (block + 1) * size
                    &&& after.given(&before, i)[e] matches DomainEvent::Write {
                        id: given_id,
                        addr,
                        op: Write::Imm(write),
                    } && {
                        &&& given_id == id
                        &&& addr == dst_mrs[j].addr_rkey_list@[block].0@
                        &&& write.dst_rkey == dst_mrs[j].addr_rkey_list@[block].1
                        &&& write.dst_ptr == dst_mrs[j].ptr
                        &&& write.imm_data == imm_data
                    }
                }
            &&& forall|j: int, k: int|
                #![trigger places[j], places[k]]
                0 <= j < k < peers ==> places[j] != places[k]
            &&& forall|i: int, e: int|
                0 <= i < N && 0 <= e < after.given(&before, i).len() ==> #[trigger] places.contains(
                    (i, e),
                )
            &&& forall|i: int|
                #![trigger after.given(&before, i)]
                0 <= i < N ==> after.given(&before, i).len() <= peers && (
                domain matches DomainGroupRouting::Pinned { domain_idx } && i != domain_idx
                    ==> after.given(&before, i).len() == 0)
        }),
{
    let n = N as int;
    let rr = before.rr_next as int;
    let peers = dst_mrs.len() as int;
    let size = imm_share(peers, domain, n);
    let posts = imm_posts(id, imm_data, dst_mrs, domain, rr, n);
    lemma_ceil_div(peers, n);
    assert forall|j: int| #![trigger posts[j]] 0 <= j < posts.len() implies 0 <= posts[j].0 < N by {
        lemma_block_in_range(j, peers, domain, n);
        lemma_steps_to(imm_first_domain(domain, rr), j / size, n);
    }
    let positions = lemma_posts_are_given(after, before, posts);
    let places = Seq::new(dst_mrs.len(), |j: int| (posts[j].0, positions[j]));
    assert forall|j: int| #![trigger places[j]] 0 <= j < peers implies {
        let (i, e) = places[j];
        let block = match domain {
            DomainGroupRouting::RoundRobinSharded { .. } => (i - before.rr_next) % n,
            DomainGroupRouting::Pinned { .. } => 0,
        };
        &&& 0 <= i < N
        &&& 0 <= e < after.given(&before, i).len()
        &&& domain matches DomainGroupRouting::Pinned { domain_idx } ==> i == domain_idx
        &&& domain is RoundRobinSharded ==> block * size <= j < (block + 1) * size
        &&& after.given(&before, i)[e] matches DomainEvent::Write {
            id: given_id,
            addr,
            op: Write::Imm(write),
        } && {
            &&& given_id == id
            &&& addr == dst_mrs[j].addr_rkey_list@[block].0@
            &&& write.dst_rkey == dst_mrs[j].addr_rkey_list@[block].1
            &&& write.dst_ptr == dst_mrs[j].ptr
            &&& write.imm_data == imm_data
        }
    } by {
        let block = j / size;
        assert(posts[j].0 == (imm_first_domain(domain, rr) + block) % n);
        lemma_block_in_range(j, peers, domain, n);
        lemma_steps_to(imm_first_domain(domain, rr), block, n);
        lemma_fundamental_div_mod(j, size);
        assert(size * block == block * size) by (nonlinear_arith);
        lemma_mul_step(block, size);
        if let DomainGroupRouting::Pinned { domain_idx } = domain {
            lemma_small_mod(domain_idx as nat, n as nat);
        }
    }
    assert forall|j: int, k: int|
        #![trigger places[j], places[k]]
        0 <= j < k < peers implies places[j] != places[k] by {
        assert(posts[j] == posts[j] && posts[k] == posts[k]);
        if posts[j].0 == posts[k].0 {
            assert(positions[j] < positions[k]);
        }
    }
    assert forall|i: int, e: int|
        0 <= i < N && 0 <= e < after.given(&before, i).len() implies #[trigger] places.contains(
        (i, e),
    ) by {
        assert(is_posted(posts, positions, i, e));
        let k = choose|k: int|
            #![trigger posts[k]]
            0 <= k < posts.len() && posts[k].0 == i && positions[k] == e;
        assert(places[k] == (i, e));
    }
    assert forall|i: int|
        #![trigger after.given(&before, i)]
        0 <= i < N && (domain matches DomainGroupRouting::Pinned { domain_idx } && i
            != domain_idx) implies after.given(&before, i).len() == 0 by {
        if after.given(&before, i).len() > 0 {
            assert(places.contains((i, 0)));
            let j = choose|j: int| 0 <= j < places.len() && places[j] == (i, 0int);
            assert(places[j].0 == i);
        }
    }
    (places, size)
}

/// An immediate is accepted exactly if every peer has an entry for every domain, and the routing
/// is a round robin over single domains or is pinned to a domain that there is. A refused one
/// gives the domains nothing.
pub proof fn immediate_is_accepted_if_it_can_be<D: RdmaDomain, C, A, const N: usize>(
    after: DomainGroup<D, C, A, N>,
    before: DomainGroup<D, C, A, N>,
    id: TransferId,
    imm_data: u32,
    dst_mrs: Seq<MemoryRegionDescriptor>,
    domain: DomainGroupRouting,
    counter: Option<C>,
    result: Result<(), FabricLibError>,
)
    requires
        after.imm_submitted(&before, id, imm_data, dst_mrs, domain, counter, result),
    ensures
        result is Ok <==> {
            &&& forall|j: int|
                #![trigger dst_mrs[j]]
                0 <= j < dst_mrs.len() ==> dst_mrs[j].addr_rkey_list@.len() == N
            &&& match domain {
                DomainGroupRouting::RoundRobinSharded { num_shards } => num_shards == 1,
                DomainGroupRouting::Pinned { domain_idx } => domain_idx < N,
            }
        },
        result is Err ==> after.domains == before.domains && after.rr_next == before.rr_next,
{
}

} // verus!
