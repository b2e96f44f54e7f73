//! Whether a request stays within what a group can address.
use vstd::prelude::*;

use crate::api::{
    DomainGroupRouting, GatherSegment, GatherTransferRequest, GroupTransferRouting,
    MemoryRegionDescriptor, PagedTransferRequest, SingleTransferRequest, TransferRequest, keys_of,
};
use crate::domain_group::gather::{
    check_gather, gather_count, gather_fault, gather_in_range, gather_range, gather_shard_in_range,
};
use crate::domain_group::imm::{all_of_width, imm_in_range};
use crate::domain_group::paged::paged_in_range;
use crate::domain_group::single::{single_fault, single_in_range};
use crate::domain_group::{DomainGroup, check_routing, shard_count};
use crate::provider::RdmaDomain;
use crate::segments::{
    lemma_total_length_monotone, lemma_total_length_take, overlap, piece_in_range, pieces_in_range,
    total_length,
};
use crate::sharding::{
    MIN_SHARD_SIZE, ceil_div, divide_evenly, lemma_ceil_div, shard_single_transfer, shard_size,
    single_shard,
};

verus! {

/// Whether a routing names at least one shard.
fn routing_valid(routing: DomainGroupRouting) -> (valid: bool)
    ensures
        valid == routing.valid(),
{
    match routing {
        DomainGroupRouting::RoundRobinSharded { num_shards } => num_shards > 0,
        DomainGroupRouting::Pinned { .. } => true,
    }
}

/// Whether an immediate has a peer and a domain.
fn imm_fits(dst_mrs: &[MemoryRegionDescriptor], routing: DomainGroupRouting, n: usize) -> (fits:
    bool)
    ensures
        fits == imm_in_range(dst_mrs@, routing, n as int),
{
    let peers: usize = dst_mrs.len();
    let mut j: usize = 0;
    while j < peers
        invariant
            j <= peers,
            peers == dst_mrs@.len(),
            forall|i: int| #![trigger dst_mrs@[i]] 0 <= i < j ==> dst_mrs@[i].width() == n,
        decreases peers - j,
    {
        if dst_mrs[j].addr_rkey_list.len() != n {
            assert(dst_mrs@[j as int].width() != n);
            return true;
        }
        j = j + 1;
    }
    let followed: bool = match routing {
        DomainGroupRouting::RoundRobinSharded { num_shards } => num_shards == 1,
        DomainGroupRouting::Pinned { domain_idx } => (domain_idx as usize) < n,
    };
    !followed || (peers > 0 && n > 0)
}

/// Whether the offsets of a contiguous write fit in a word.
fn single_fits(request: &SingleTransferRequest, n: usize) -> (fits: bool)
    ensures
        fits == single_in_range(request, n as int),
{
    if !routing_valid(request.domain) {
        return false;
    }
    if request.dst_mr.addr_rkey_list.len() != n {
        return true;
    }
    let num_shards: usize = match check_routing(request.domain, n) {
        Ok(count) => count,
        Err(_) => {
            return true;
        },
    };
    let total: usize = request.length as usize;
    let share: u128 = (total as u128 + num_shards as u128 - 1) / num_shards as u128;
    let blocks: u128 = (share + MIN_SHARD_SIZE as u128 - 1) / MIN_SHARD_SIZE as u128;
    proof {
        lemma_ceil_div(total as int, num_shards as int);
        assert(share == ceil_div(total as int, num_shards as int));
        assert(blocks == ceil_div(share as int, MIN_SHARD_SIZE as int));
        assert(blocks * MIN_SHARD_SIZE == shard_size(total as int, num_shards as int));
    }
    if blocks * MIN_SHARD_SIZE as u128 > usize::MAX as u128 {
        return false;
    }
    let ranges = shard_single_transfer(total, num_shards);
    let mut k: usize = 0;
    while k < num_shards
        invariant
            k <= num_shards,
            num_shards == shard_count(request.domain),
            total == request.length as usize,
            single_fault(request, n as int) is None,
            shard_size(total as int, num_shards as int) <= usize::MAX,
            request.domain.valid(),
            ranges@.len() == num_shards,
            forall|j: int|
                #![trigger ranges@[j]]
                0 <= j < ranges@.len() ==> (ranges@[j].0 as int, ranges@[j].1 as int)
                    == single_shard(total as int, num_shards as int, j),
            forall|j: int|
                #![trigger single_shard(total as int, num_shards as int, j)]
                0 <= j < k ==> request.src_offset + single_shard(
                    total as int,
                    num_shards as int,
                    j,
                ).0 <= u64::MAX && request.dst_offset + single_shard(
                    total as int,
                    num_shards as int,
                    j,
                ).0 <= u64::MAX,
        decreases num_shards - k,
    {
        let offset: u64 = ranges[k].0 as u64;
        assert(offset == single_shard(total as int, num_shards as int, k as int).0);
        if request.src_offset.checked_add(offset).is_none()
            || request.dst_offset.checked_add(offset).is_none() {
            return false;
        }
        k = k + 1;
    }
    true
}

/// Whether the parts of segments in `begin..end` have offsets that fit in a word.
fn pieces_fit(segments: &Vec<GatherSegment>, begin: usize, end: usize) -> (fits: bool)
    requires
        total_length(segments@) <= usize::MAX,
    ensures
        fits == pieces_in_range(segments@, begin as int, end as int),
{
    let count: usize = segments.len();
    let mut at: usize = 0;
    let mut s: usize = 0;
    assert(segments@.take(0) =~= Seq::<GatherSegment>::empty());
    while s < count
        invariant
            s <= count,
            count == segments@.len(),
            total_length(segments@) <= usize::MAX,
            at == total_length(segments@.take(s as int)),
            forall|j: int|
                0 <= j < s ==> #[trigger] piece_in_range(segments@, j, begin as int, end as int),
        decreases count - s,
    {
        let segment = segments[s];
        proof {
            lemma_total_length_take(segments@, s as int);
            lemma_total_length_monotone(segments@, s + 1);
        }
        let stop: usize = at + segment.length as usize;
        let first: usize = if begin > at {
            begin
        } else {
            at
        };
        let last: usize = if end < stop {
            end
        } else {
            stop
        };
        assert((first as int, last as int) == overlap(
            segments@[s as int],
            at as int,
            begin as int,
            end as int,
        ));
        if first < last && segment.src_offset.checked_add((first - at) as u64).is_none() {
            assert(!piece_in_range(segments@, s as int, begin as int, end as int));
            return false;
        }
        assert(piece_in_range(segments@, s as int, begin as int, end as int));
        at = stop;
        s = s + 1;
    }
    true
}

/// Whether the offsets of a gathered write fit in a word.
fn gather_fits(request: &GatherTransferRequest, n: usize) -> (fits: bool)
    ensures
        fits == gather_in_range(request, n as int),
{
    if !routing_valid(request.domain) {
        return false;
    }
    let (length, num_shards) = match check_gather(request, n) {
        Ok(checked) => checked,
        Err(_) => {
            return true;
        },
    };
    let ranges = divide_evenly(length, num_shards);
    let shards: usize = ranges.len();
    let mut k: usize = 0;
    while k < shards
        invariant
            k <= shards,
            shards == ranges@.len(),
            shards == gather_count(request),
            request.domain.valid(),
            gather_fault(request, n as int) is None,
            length == total_length(request.segments@),
            num_shards == shard_count(request.domain),
            forall|j: int|
                #![trigger ranges@[j]]
                0 <= j < ranges@.len() ==> (ranges@[j].0 as int, ranges@[j].1 as int)
                    == gather_range(request, j),
            forall|j: int| 0 <= j < k ==> #[trigger] gather_shard_in_range(request, j),
        decreases shards - k,
    {
        let (begin, end) = ranges[k];
        assert((begin as int, end as int) == gather_range(request, k as int));
        if request.dst_offset.checked_add(begin as u64).is_none() || !pieces_fit(
            &request.segments,
            begin,
            end,
        ) {
            assert(!gather_shard_in_range(request, k as int));
            return false;
        }
        assert(gather_shard_in_range(request, k as int));
        k = k + 1;
    }
    true
}

/// Whether pages have a domain to carry them.
fn paged_fits(request: &PagedTransferRequest, n: usize) -> (fits: bool)
    ensures
        fits == paged_in_range(request, n as int),
{
    n > 0 || request.dst_mr.addr_rkey_list.len() != n || request.src_page_indices.len()
        != request.dst_page_indices.len()
}

impl<D: RdmaDomain, C, A, const N: usize> DomainGroup<D, C, A, N> {
    /// Whether a request may be submitted: the group has the domains that it needs, and no
    /// offset leaves the range of a word.
    pub fn can_submit(&self, request: &TransferRequest) -> (can: bool)
        ensures
            can == self.submittable(request),
    {
        match request {
            TransferRequest::Imm(request) => {
                let dst_mrs = vec![request.dst_mr.clone()];
                proof {
                    let given = seq![request.dst_mr];
                    assert(dst_mrs@[0]@ == given[0]@);
                    assert(keys_of(dst_mrs@[0].addr_rkey_list@).len() == given[0].width());
                    assert(all_of_width(dst_mrs@, N as int) <==> given[0].width() == N);
                    assert(all_of_width(given, N as int) <==> given[0].width() == N);
                }
                imm_fits(dst_mrs.as_slice(), request.domain, N)
            },
            TransferRequest::Barrier(request) => imm_fits(
                request.dst_mrs.as_slice(),
                request.domain,
                N,
            ),
            TransferRequest::Single(request) => single_fits(request, N),
            TransferRequest::Gather(request) => gather_fits(request, N),
            TransferRequest::WriteBatch(_) => true,
            TransferRequest::Paged(request) => paged_fits(request, N),
            TransferRequest::Scatter(request) => {
                if request.dsts.len() == 0 {
                    return true;
                }
                if let Some(handle) = request.dst_handle {
                    match self.peer_groups.get(&handle.0) {
                        None => {
                            return true;
                        },
                        Some(group) => {
                            if request.dsts.len() != group.addrs.len() {
                                return true;
                            }
                        },
                    }
                }
                match request.domain {
                    GroupTransferRouting::AllDomainsShardPeers => N > 0,
                    GroupTransferRouting::AllDomainsShardBytes => true,
                    GroupTransferRouting::Single { domain_idx } => (domain_idx as usize) < N,
                }
            },
        }
    }
}

} // verus!
