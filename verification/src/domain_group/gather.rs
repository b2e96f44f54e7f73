//! Writes whose source is a list of segments.
use vstd::arithmetic::div_mod::{lemma_fundamental_div_mod, lemma_small_mod};
use vstd::prelude::*;

use crate::api::{
    DomainAddress, DomainGroupRouting, GatherSegment, GatherTransferRequest, MAX_GATHER_SEGMENTS,
    MemoryRegionHandle, MemoryRegionLocalDescriptor, TransferId,
};
use crate::domain_group::delivery::{
    lemma_shard_of_domain, lemma_shards_are_given, lemma_steps_of_shard, shard_on,
};
use crate::domain_group::{
    DomainGroup, Lookups, all_found, check_routing, fails_first_at, first_failure, fresh_context,
    lemma_posted_push, posted, routing_fault, shard_count, wrap_add,
};
use crate::error::FabricLibError;
use crate::provider::{DomainEvent, RdmaDomain};
use crate::rdma_op::{GatherSource, GatherWrite, GatherWriteOp, Write, WriteOp};
use crate::segments::{
    SourceByte, lemma_pieces_take, lemma_source_bytes_len, lemma_total_length_bounds, lemma_total_length_monotone,
    lemma_total_length_take, overlap, piece, piece_in_range, pieces, pieces_are_the_bytes,
    pieces_in_range, source_bytes, total_length,
};
use crate::sharding::{
    ceil_div, divide_evenly, even_range, even_ranges_partition, lemma_ceil_div, lemma_mul_le,
    lemma_mul_step, lemma_range_count, range_count,
};

verus! {

/// Why `n` domains refuse a gathered write.
pub open spec fn gather_fault(request: &GatherTransferRequest, n: int) -> Option<FabricLibError> {
    if request.segments@.len() == 0 || exists|s: int|
        #![trigger request.segments@[s]]
        0 <= s < request.segments@.len() && request.segments@[s].length == 0 {
        Some(FabricLibError::Custom("GatherTransferRequest requires non-empty segments"))
    } else if request.segments@.len() > MAX_GATHER_SEGMENTS {
        Some(FabricLibError::Custom("GatherTransferRequest has too many segments"))
    } else if exists|s: int|
        #![trigger request.segments@[s]]
        0 <= s < request.segments@.len() && request.segments@[s].length > u32::MAX {
        Some(
            FabricLibError::Custom(
                "GatherTransferRequest segment exceeds the verbs SGE length limit",
            ),
        )
    } else if request.dst_mr.width() != n {
        Some(
            FabricLibError::Custom("Number of target addresses must match the number of domains"),
        )
    } else if routing_fault(request.domain, n) is Some {
        routing_fault(request.domain, n)
    } else if total_length(request.segments@) > usize::MAX {
        Some(FabricLibError::Custom("GatherTransferRequest length does not fit usize"))
    } else {
        None
    }
}

/// How many shards of a gathered write have bytes.
pub open spec fn gather_count(request: &GatherTransferRequest) -> nat {
    range_count(total_length(request.segments@), shard_count(request.domain))
}

/// Which of the bytes the shard `k` carries.
pub open spec fn gather_range(request: &GatherTransferRequest, k: int) -> (int, int) {
    even_range(total_length(request.segments@), shard_count(request.domain), k)
}

/// The parts of the segments that the shard `k` carries.
pub open spec fn gather_pieces(request: &GatherTransferRequest, k: int) -> Seq<GatherSegment> {
    pieces(request.segments@, gather_range(request, k).0, gather_range(request, k).1)
}

/// The offsets of the shard `k` fit in a word.
pub open spec fn gather_shard_in_range(request: &GatherTransferRequest, k: int) -> bool {
    &&& request.dst_offset + gather_range(request, k).0 <= u64::MAX
    &&& pieces_in_range(
        request.segments@,
        gather_range(request, k).0,
        gather_range(request, k).1,
    )
}

/// There is at least one shard, and the offsets of an acceptable request fit in a word.
pub open spec fn gather_in_range(request: &GatherTransferRequest, n: int) -> bool {
    &&& request.domain.valid()
    &&& gather_fault(request, n) is None ==> forall|k: int|
        0 <= k < gather_count(request) ==> #[trigger] gather_shard_in_range(request, k)
}

/// The source that stands for a part of a segment.
pub open spec fn gather_source<D: RdmaDomain>(domain: &D, part: GatherSegment) -> GatherSource {
    GatherSource {
        src_ptr: part.src_mr.ptr,
        src_desc: domain.mem_desc(part.src_mr.ptr)->Ok_0,
        src_offset: part.src_offset,
        length: part.length,
    }
}

/// The sources that stand for the parts of segments.
pub open spec fn gather_sources<D: RdmaDomain>(domain: &D, parts: Seq<GatherSegment>) -> Seq<
    GatherSource,
> {
    Seq::new(parts.len(), |s: int| gather_source(domain, parts[s]))
}

/// The lookups that the sources take.
pub open spec fn source_lookups<D: RdmaDomain>(domain: &D, parts: Seq<GatherSegment>) -> Lookups {
    Seq::new(parts.len(), |s: int| domain.mem_desc(parts[s].src_mr.ptr))
}

/// The ranges that the sources of a write name.
pub open spec fn named_segments(sources: Seq<GatherSource>) -> Seq<GatherSegment> {
    Seq::new(
        sources.len(),
        |s: int|
            GatherSegment {
                src_mr: MemoryRegionHandle { ptr: sources[s].src_ptr },
                src_offset: sources[s].src_offset,
                length: sources[s].length,
            },
    )
}

/// The write of the shard `k`, on the domain `domain` with index `i`.
pub open spec fn gather_write<D: RdmaDomain>(
    domain: &D,
    request: &GatherTransferRequest,
    k: int,
    i: int,
) -> GatherWrite {
    let (begin, end) = gather_range(request, k);
    GatherWrite {
        sources: gather_sources(domain, gather_pieces(request, k)),
        imm_data: request.imm_data,
        dst_ptr: request.dst_mr.ptr,
        dst_rkey: request.dst_mr.rkey(i),
        dst_offset: (request.dst_offset + begin) as u64,
        length: (end - begin) as u64,
    }
}

/// A write takes the source byte `from` to the remote address `to`.
pub open spec fn delivers_byte(event: DomainEvent, from: SourceByte, to: int) -> bool {
    event matches DomainEvent::Write { op: Write::Gather(write), .. } && {
        let b = to - (write.dst_ptr + write.dst_offset);
        0 <= b < write.length && source_bytes(named_segments(write.sources))[b] == from
    }
}

/// Each shard of an accepted gathered write has a source, and delivers exactly its range of the
/// concatenated segments to the same range of the destination; the ranges follow each other
/// from the first byte to the last.
pub proof fn gathered_shards_deliver_the_segments<D: RdmaDomain>(
    domain: &D,
    request: &GatherTransferRequest,
    n: int,
    k: int,
    i: int,
)
    requires
        gather_fault(request, n) is None,
        gather_in_range(request, n),
        0 <= k < gather_count(request),
    ensures
        ({
            let write = gather_write(domain, request, k, i);
            let (begin, end) = gather_range(request, k);
            &&& write.sources.len() > 0
            &&& source_bytes(named_segments(write.sources)) == source_bytes(
                request.segments@,
            ).subrange(begin, end)
            &&& write.length == end - begin
            &&& write.dst_offset == request.dst_offset + begin
            &&& k == 0 ==> begin == 0
            &&& k + 1 < gather_count(request) ==> gather_range(request, k + 1).0 == end
            &&& k + 1 == gather_count(request) ==> end == total_length(request.segments@)
        }),
{
    let total = total_length(request.segments@);
    let shards = shard_count(request.domain);
    lemma_total_length_bounds(request.segments@, u32::MAX as int);
    even_ranges_partition(total, shards);
    let (begin, end) = gather_range(request, k);
    assert(even_range(total, shards, k) == (begin, end));
    assert(gather_shard_in_range(request, k));
    pieces_are_the_bytes(request.segments@, begin, end);
    let write = gather_write(domain, request, k, i);
    assert(named_segments(write.sources) =~= gather_pieces(request, k));
    if write.sources.len() == 0 {
        assert(total_length(gather_pieces(request, k)) == 0);
    }
    if k + 1 < gather_count(request) {
        assert(gather_range(request, k + 1) == even_range(total, shards, k + 1));
    }
}

/// Checks a gathered write against `n` domains; its length and the number of its shards.
pub(crate) fn check_gather(request: &GatherTransferRequest, n: usize) -> (checked: Result<
    (usize, usize),
    FabricLibError,
>)
    ensures
        match gather_fault(request, n as int) {
            Some(fault) => checked == Err::<(usize, usize), FabricLibError>(fault),
            None => checked matches Ok((length, shards)) && length == total_length(
                request.segments@,
            ) && shards == shard_count(request.domain),
        },
{
    let count: usize = request.segments.len();
    let mut empty: bool = count == 0;
    let mut oversized: bool = false;
    let mut s: usize = 0;
    while s < count
        invariant
            s <= count,
            count == request.segments@.len(),
            empty <==> (count == 0 || exists|j: int|
                #![trigger request.segments@[j]]
                0 <= j < s && request.segments@[j].length == 0),
            oversized <==> exists|j: int|
                #![trigger request.segments@[j]]
                0 <= j < s && request.segments@[j].length > u32::MAX,
        decreases count - s,
    {
        if request.segments[s].length == 0 {
            empty = true;
        }
        if request.segments[s].length > u32::MAX as u64 {
            oversized = true;
        }
        s = s + 1;
    }
    if empty {
        return Err(FabricLibError::Custom("GatherTransferRequest requires non-empty segments"));
    }
    if count > MAX_GATHER_SEGMENTS {
        return Err(FabricLibError::Custom("GatherTransferRequest has too many segments"));
    }
    if oversized {
        return Err(
            FabricLibError::Custom(
                "GatherTransferRequest segment exceeds the verbs SGE length limit",
            ),
        );
    }
    if request.dst_mr.addr_rkey_list.len() != n {
        return Err(
            FabricLibError::Custom("Number of target addresses must match the number of domains"),
        );
    }
    let shards: usize = match check_routing(request.domain, n) {
        Ok(shards) => shards,
        Err(fault) => {
            return Err(fault);
        },
    };
    let mut length: u64 = 0;
    let mut s: usize = 0;
    assert(request.segments@.take(0) =~= Seq::<GatherSegment>::empty());
    while s < count
        invariant
            s <= count,
            count == request.segments@.len(),
            count <= MAX_GATHER_SEGMENTS,
            forall|j: int|
                #![trigger request.segments@[j]]
                0 <= j < count ==> request.segments@[j].length <= u32::MAX,
            length == total_length(request.segments@.take(s as int)),
            length <= s * u32::MAX,
        decreases count - s,
    {
        proof {
            lemma_total_length_take(request.segments@, s as int);
        }
        length = length + request.segments[s].length;
        s = s + 1;
    }
    assert(request.segments@.take(count as int) =~= request.segments@);
    if length > usize::MAX as u64 {
        return Err(FabricLibError::Custom("GatherTransferRequest length does not fit usize"));
    }
    Ok((length as usize, shards))
}

/// Looks up the sources of the bytes `begin..end` of a list of segments.
fn find_sources<D: RdmaDomain>(
    domain: &D,
    segments: &Vec<GatherSegment>,
    begin: usize,
    end: usize,
) -> (found: Result<Vec<GatherSource>, FabricLibError>)
    requires
        total_length(segments@) <= usize::MAX,
        pieces_in_range(segments@, begin as int, end as int),
    ensures
        ({
            let parts = pieces(segments@, begin as int, end as int);
            if all_found(source_lookups(domain, parts)) {
                found matches Ok(sources) && sources@ == gather_sources(domain, parts)
            } else {
                first_failure(source_lookups(domain, parts), found)
            }
        }),
{
    let ghost parts = pieces(segments@, begin as int, end as int);
    let ghost lookups = source_lookups(domain, parts);
    let mut sources: Vec<GatherSource> = Vec::with_capacity(segments.len());
    let mut at: usize = 0;
    let mut s: usize = 0;
    assert(segments@.take(0) =~= Seq::<GatherSegment>::empty());
    assert(segments@.take(segments@.len() as int) =~= segments@);
    while s < segments.len()
        invariant
            s <= segments@.len(),
            segments@.take(segments@.len() as int) == segments@,
            total_length(segments@) <= usize::MAX,
            pieces_in_range(segments@, begin as int, end as int),
            parts == pieces(segments@, begin as int, end as int),
            lookups == source_lookups(domain, parts),
            at == total_length(segments@.take(s as int)),
            sources@ == gather_sources(
                domain,
                pieces(segments@.take(s as int), begin as int, end as int),
            ),
            forall|j: int| #![trigger lookups[j]] 0 <= j < sources@.len() ==> lookups[j] is Ok,
        decreases segments@.len() - s,
    {
        let segment = segments[s];
        let ghost so_far = pieces(segments@.take(s as int), begin as int, end as int);
        proof {
            lemma_total_length_take(segments@, s as int);
            lemma_total_length_monotone(segments@, s + 1);
            lemma_pieces_take(segments@, s as int, begin as int, end as int);
            assert(segments@[s as int] == segment);
        }
        let length: usize = segment.length as usize;
        let stop: usize = at + length;
        let first: usize = if begin > at {
            begin
        } else {
            at
        };
        let last: usize = if end < stop {
            end
        } else {
            stop
        };
        assert((first as int, last as int) == overlap(segment, at as int, begin as int, end as int));
        if first < last {
            assert(piece_in_range(segments@, s as int, begin as int, end as int));
            let ghost part = piece(segment, at as int, begin as int, end as int);
            let ghost next = pieces(segments@.take(s + 1), begin as int, end as int);
            assert(next == so_far.push(part));
            proof {
                lemma_pieces_prefix(segments@, s + 1, begin as int, end as int);
            }
            assert(next[so_far.len() as int] == parts[so_far.len() as int]);
            assert(lookups[so_far.len() as int] == domain.mem_desc(segment.src_mr.ptr));
            let src_desc = match domain.get_mem_desc(segment.src_mr.ptr) {
                Ok(desc) => desc,
                Err(error) => {
                    assert(fails_first_at(lookups, so_far.len() as int));
                    return Err(error);
                },
            };
            sources.push(
                GatherSource {
                    src_ptr: segment.src_mr.ptr,
                    src_desc,
                    src_offset: segment.src_offset + (first - at) as u64,
                    length: (last - first) as u64,
                },
            );
            assert(sources@ =~= gather_sources(domain, next));
        }
        at = stop;
        s = s + 1;
    }
    assert(all_found(lookups));
    Ok(sources)
}

/// The parts that the first segments have are the first parts.
proof fn lemma_pieces_prefix(segments: Seq<GatherSegment>, k: int, begin: int, end: int)
    requires
        0 <= k <= segments.len(),
    ensures
        pieces(segments.take(k), begin, end).len() <= pieces(segments, begin, end).len(),
        forall|j: int|
            #![trigger pieces(segments, begin, end)[j]]
            0 <= j < pieces(segments.take(k), begin, end).len() ==> pieces(
                segments.take(k),
                begin,
                end,
            )[j] == pieces(segments, begin, end)[j],
    decreases segments.len() - k,
{
    if k < segments.len() {
        lemma_pieces_take(segments, k, begin, end);
        lemma_pieces_prefix(segments, k + 1, begin, end);
        assert forall|j: int|
            #![trigger pieces(segments, begin, end)[j]]
            0 <= j < pieces(segments.take(k), begin, end).len() implies pieces(
            segments.take(k),
            begin,
            end,
        )[j] == pieces(segments, begin, end)[j] by {
            assert(pieces(segments.take(k + 1), begin, end)[j] == pieces(segments, begin, end)[j]);
        }
    } else {
        assert(segments.take(k) =~= segments);
    }
}

impl<D: RdmaDomain, C, A, const N: usize> DomainGroup<D, C, A, N> {
    /// The domain of the shard `k` of a gathered write.
    pub open spec fn gather_domain(&self, request: &GatherTransferRequest, k: int) -> int {
        request.domain.domain_of_shard(self.rr_next as int, k, N as int)
    }

    /// The source lookups of the shard `k`.
    pub open spec fn gather_lookups(&self, request: &GatherTransferRequest, k: int) -> Lookups {
        source_lookups(
            &self.domains[self.gather_domain(request, k)],
            gather_pieces(request, k),
        )
    }

    /// The sources of the first `upto` shards are all known to their domains.
    pub open spec fn gather_found(&self, request: &GatherTransferRequest, upto: int) -> bool {
        forall|k: int| 0 <= k < upto ==> all_found(#[trigger] self.gather_lookups(request, k))
    }

    /// What a gathered write hands to the domains.
    pub open spec fn gather_posts(&self, id: TransferId, request: &GatherTransferRequest) -> Seq<
        (int, DomainEvent),
    > {
        Seq::new(
            gather_count(request),
            |k: int|
                {
                    let i = self.gather_domain(request, k);
                    (
                        i,
                        DomainEvent::Write {
                            id,
                            addr: request.dst_mr.addr(i),
                            op: Write::Gather(gather_write(&self.domains[i], request, k, i)),
                        },
                    )
                },
        )
    }

    /// What becomes of a request for a gathered write.
    pub open spec fn gather_submitted(
        &self,
        before: &Self,
        transfer_id: TransferId,
        request: &GatherTransferRequest,
        tx_counter: Option<C>,
        result: Result<(), FabricLibError>,
    ) -> bool {
        match gather_fault(request, N as int) {
            Some(fault) => result == Err::<(), FabricLibError>(fault) && *self == *before,
            None => {
                &&& self.rr_next == request.domain.advanced(
                    before.rr_next as int,
                    gather_count(request) as int,
                    N as int,
                )
                &&& if before.gather_found(request, gather_count(request) as int) {
                    &&& result is Ok
                    &&& self.same_peers(before)
                    &&& self.write_ops@ == before.write_ops@.insert(
                        transfer_id.0,
                        fresh_context(gather_count(request) as usize, tx_counter),
                    )
                    &&& self.histories() == posted(
                        before.histories(),
                        before.gather_posts(transfer_id, request),
                    )
                } else {
                    &&& self.same_but_round_robin(before)
                    &&& exists|k: int|
                        #![trigger before.gather_lookups(request, k)]
                        0 <= k < gather_count(request) && before.gather_found(request, k)
                            && first_failure(before.gather_lookups(request, k), result)
                }
            },
        }
    }

    /// Divides a gathered write between domains.
    ///
    /// A refused request changes nothing. When a domain does not know a source, no domain is
    /// given a write, though a round robin has passed all shards.
    pub fn submit_gather_transfer_request(
        &mut self,
        transfer_id: TransferId,
        request: GatherTransferRequest,
        tx_counter: Option<C>,
    ) -> (result: Result<(), FabricLibError>)
        requires
            old(self).wf(),
            gather_in_range(&request, N as int),
        ensures
            final(self).wf(),
            final(self).gather_submitted(old(self), transfer_id, &request, tx_counter, result),
    {
        let (length, num_shards) = match check_gather(&request, N) {
            Ok(checked) => checked,
            Err(fault) => {
                return Err(fault);
            },
        };
        let ranges = divide_evenly(length, num_shards);
        let shards: usize = ranges.len();
        let ghost rr = self.rr_next as int;
        proof {
            lemma_total_length_bounds(request.segments@, u32::MAX as int);
            lemma_range_count(length as int, num_shards as int);
            even_ranges_partition(length as int, num_shards as int);
        }
        let first_domain: usize = match request.domain {
            DomainGroupRouting::RoundRobinSharded { .. } => self.rr_next,
            DomainGroupRouting::Pinned { domain_idx } => domain_idx as usize,
        };
        if let DomainGroupRouting::RoundRobinSharded { .. } = request.domain {
            self.rr_next = wrap_add(self.rr_next, shards, N);
        }
        let ghost posts = old(self).gather_posts(transfer_id, &request);
        let mut rdma_ops: Vec<(usize, DomainAddress, WriteOp)> = Vec::with_capacity(shards);
        let mut shard: usize = 0;
        while shard < shards
            invariant
                shard <= shards,
                shards == gather_count(&request),
                shards == ranges@.len(),
                shards <= num_shards <= N,
                num_shards == shard_count(request.domain),
                length == total_length(request.segments@),
                gather_fault(&request, N as int) is None,
                gather_in_range(&request, N as int),
                old(self).wf(),
                rr == old(self).rr_next,
                first_domain < N,
                match request.domain {
                    DomainGroupRouting::RoundRobinSharded { .. } => first_domain == rr,
                    DomainGroupRouting::Pinned { domain_idx } => first_domain == domain_idx,
                },
                self.rr_next == request.domain.advanced(rr, shards as int, N as int),
                self.same_but_round_robin(old(self)),
                posts == old(self).gather_posts(transfer_id, &request),
                forall|j: int|
                    #![trigger ranges@[j]]
                    0 <= j < ranges@.len() ==> (ranges@[j].0 as int, ranges@[j].1 as int)
                        == gather_range(&request, j) && ranges@[j].0 <= ranges@[j].1,
                old(self).gather_found(&request, shard as int),
                rdma_ops@.len() == shard,
                forall|j: int|
                    #![trigger rdma_ops@[j]]
                    0 <= j < shard ==> rdma_ops@[j].0 < N && (
                        rdma_ops@[j].0 as int,
                        DomainEvent::Write {
                            id: transfer_id,
                            addr: rdma_ops@[j].1@,
                            op: rdma_ops@[j].2@,
                        },
                    ) == posts[j],
            decreases shards - shard,
        {
            let (begin, end) = ranges[shard];
            assert((begin as int, end as int) == gather_range(&request, shard as int));
            let i: usize = wrap_add(first_domain, shard, N);
            proof {
                if request.domain is Pinned {
                    assert(shard == 0);
                    lemma_small_mod(first_domain as nat, N as nat);
                }
                assert(i == old(self).gather_domain(&request, shard as int));
                assert(gather_shard_in_range(&request, shard as int));
            }
            let ghost lookups = old(self).gather_lookups(&request, shard as int);
            let sources = match find_sources(&self.domains[i], &request.segments, begin, end) {
                Ok(sources) => sources,
                Err(error) => {
                    assert(first_failure(lookups, Err::<(), FabricLibError>(error)));
                    assert(!all_found(lookups));
                    return Err(error);
                },
            };
            let entry = &request.dst_mr.addr_rkey_list[i];
            let op = WriteOp::Gather(
                GatherWriteOp {
                    sources,
                    imm_data: request.imm_data,
                    dst_ptr: request.dst_mr.ptr,
                    dst_rkey: entry.1,
                    dst_offset: request.dst_offset + begin as u64,
                    length: (end - begin) as u64,
                },
            );
            rdma_ops.push((i, entry.0.clone(), op));
            shard = shard + 1;
        }

        self.track(transfer_id, shards, tx_counter);
        let ghost start = self.histories();
        assert(posts.take(0) =~= Seq::<(int, DomainEvent)>::empty());
        assert(start =~= old(self).histories());
        for entry in it: rdma_ops
            invariant
                self.wf(),
                self.same_peers(old(self)),
                self.rr_next == request.domain.advanced(rr, shards as int, N as int),
                self.write_ops@ == old(self).write_ops@.insert(
                    transfer_id.0,
                    fresh_context(shards, tx_counter),
                ),
                posts.len() == shards,
                it.seq().len() == shards,
                it.seq() == rdma_ops@,
                forall|j: int|
                    #![trigger rdma_ops@[j]]
                    0 <= j < shards ==> rdma_ops@[j].0 < N && (
                        rdma_ops@[j].0 as int,
                        DomainEvent::Write {
                            id: transfer_id,
                            addr: rdma_ops@[j].1@,
                            op: rdma_ops@[j].2@,
                        },
                    ) == posts[j],
                self.histories() == posted(start, posts.take(it.index() as int)),
        {
            let (domain, addr, op) = entry;
            proof {
                lemma_posted_push(start, posts, it.index() as int);
            }
            self.post(domain, transfer_id, addr, op);
        }
        assert(posts.take(posts.len() as int) =~= posts);
        Ok(())
    }
}

/// There are no more parts than segments, and no part is empty.
proof fn lemma_pieces_nonempty(segments: Seq<GatherSegment>, begin: int, end: int)
    ensures
        pieces(segments, begin, end).len() <= segments.len(),
        forall|j: int|
            #![trigger pieces(segments, begin, end)[j]]
            0 <= j < pieces(segments, begin, end).len() ==> pieces(segments, begin, end)[j].length
                > 0,
    decreases segments.len(),
{
    if segments.len() > 0 {
        lemma_pieces_nonempty(segments.drop_last(), begin, end);
        let rest = pieces(segments.drop_last(), begin, end);
        assert forall|j: int|
            #![trigger pieces(segments, begin, end)[j]]
            0 <= j < pieces(segments, begin, end).len() implies pieces(
            segments,
            begin,
            end,
        )[j].length > 0 by {
            if j < rest.len() {
                assert(pieces(segments, begin, end)[j] == rest[j]);
            }
        }
    }
}

/// An accepted gathered write gives each domain of its shards one write, and the others nothing.
/// The `count` shards are on successive domains; all have `size` bytes, an even share, but the
/// last may have fewer. Each write goes through the address and the key of its domain's own
/// entry and has the immediate; its sources are registered with its domain and name exactly its
/// part of the segments' bytes, and it takes them to the same part of the destination.
pub proof fn gathered_writes_keep_their_course<D: RdmaDomain, C, A, const N: usize>(
    after: DomainGroup<D, C, A, N>,
    before: DomainGroup<D, C, A, N>,
    id: TransferId,
    request: GatherTransferRequest,
    counter: Option<C>,
) -> (division: (int, int))
    requires
        before.wf(),
        gather_in_range(&request, N as int),
        after.gather_submitted(&before, id, &request, counter, Ok(())),
    ensures
        after.continues(&before),
        ({
            let (count, size) = division;
            let bytes = source_bytes(request.segments@);
            let total = bytes.len() as int;
            let (shards, next) = match request.domain {
                DomainGroupRouting::RoundRobinSharded { num_shards } => (
                    num_shards as int,
                    (before.rr_next + count) % (N as int),
                ),
                DomainGroupRouting::Pinned { .. } => (1, before.rr_next as int),
            };
            &&& after.rr_next == next
            &&& after.write_ops@[id.0].num_used_domains == count
            &&& 0 < total
            &&& 0 < count <= shards
            &&& (size - 1) * shards < total <= size * shards
            &&& (count - 1) * size < total <= count * size
            &&& forall|i: int|
                #![trigger after.given(&before, i)]
                0 <= i < N ==> match shard_on(request.domain, before.rr_next as int, i, N as int) {
                    Some(k) if k < count => {
                        let given = after.given(&before, i);
                        &&& given.len() == 1
                        &&& given[0] matches DomainEvent::Write {
                            id: given_id,
                            addr,
                            op: Write::Gather(write),
                        } && {
                            &&& given_id == id
                            &&& addr == request.dst_mr.addr_rkey_list@[i].0@
                            &&& write.dst_rkey == request.dst_mr.addr_rkey_list@[i].1
                            &&& write.imm_data == request.imm_data
                            &&& write.dst_ptr == request.dst_mr.ptr
                            &&& write.dst_offset == request.dst_offset + k * size
                            &&& 0 < write.length <= size
                            &&& write.length == size || k * size + write.length == total
                            &&& k * size + write.length <= total
                            &&& source_bytes(named_segments(write.sources)) == bytes.subrange(
                                k * size,
                                k * size + write.length,
                            )
                            &&& 0 < write.sources.len() <= request.segments@.len()
                            &&& forall|s: int|
                                #![trigger write.sources[s]]
                                0 <= s < write.sources.len() ==> write.sources[s].length > 0
                                    && before.domains[i].mem_desc(write.sources[s].src_ptr) == Ok::<
                                    MemoryRegionLocalDescriptor,
                                    FabricLibError,
                                >(write.sources[s].src_desc)
                        }
                    },
                    _ => after.given(&before, i).len() == 0,
                }
        }),
{
    let n = N as int;
    let rr = before.rr_next as int;
    let total = total_length(request.segments@);
    let bytes = source_bytes(request.segments@);
    let shards = shard_count(request.domain);
    let count = gather_count(&request) as int;
    let size = ceil_div(total, shards);
    let posts = before.gather_posts(id, &request);
    lemma_source_bytes_len(request.segments@);
    lemma_total_length_bounds(request.segments@, u32::MAX as int);
    lemma_ceil_div(total, shards);
    lemma_range_count(total, shards);
    even_ranges_partition(total, shards);
    assert(before.gather_found(&request, count));
    lemma_shards_are_given(after, before, posts, request.domain, rr);
    assert forall|i: int| #![trigger after.given(&before, i)] 0 <= i < N implies match shard_on(
        request.domain,
        rr,
        i,
        n,
    ) {
        Some(k) if k < count => {
            let given = after.given(&before, i);
            &&& given.len() == 1
            &&& given[0] matches DomainEvent::Write {
                id: given_id,
                addr,
                op: Write::Gather(write),
            } && {
                &&& given_id == id
                &&& addr == request.dst_mr.addr_rkey_list@[i].0@
                &&& write.dst_rkey == request.dst_mr.addr_rkey_list@[i].1
                &&& write.imm_data == request.imm_data
                &&& write.dst_ptr == request.dst_mr.ptr
                &&& write.dst_offset == request.dst_offset + k * size
                &&& 0 < write.length <= size
                &&& write.length == size || k * size + write.length == total
                &&& k * size + write.length <= total
                &&& source_bytes(named_segments(write.sources)) == bytes.subrange(
                    k * size,
                    k * size + write.length,
                )
                &&& 0 < write.sources.len() <= request.segments@.len()
                &&& forall|s: int|
                    #![trigger write.sources[s]]
                    0 <= s < write.sources.len() ==> write.sources[s].length > 0
                        && before.domains[i].mem_desc(write.sources[s].src_ptr) == Ok::<
                        MemoryRegionLocalDescriptor,
                        FabricLibError,
                    >(write.sources[s].src_desc)
            }
        },
        _ => after.given(&before, i).len() == 0,
    } by {
        if let Some(k) = shard_on(request.domain, rr, i, n) {
            lemma_steps_of_shard(request.domain, rr, i, n);
            if k < count {
                let (begin, end) = gather_range(&request, k);
                assert(even_range(total, shards, k) == (begin, end));
                lemma_mul_step(k, size);
                gathered_shards_deliver_the_segments(&before.domains[i], &request, n, k, i);
                lemma_pieces_nonempty(request.segments@, begin, end);
                let lookups = before.gather_lookups(&request, k);
                let parts = gather_pieces(&request, k);
                assert(all_found(lookups));
                let write = gather_write(&before.domains[i], &request, k, i);
                assert forall|s: int| #![trigger write.sources[s]] 0 <= s
                    < write.sources.len() implies write.sources[s].length > 0
                    && before.domains[i].mem_desc(write.sources[s].src_ptr) == Ok::<
                    MemoryRegionLocalDescriptor,
                    FabricLibError,
                >(write.sources[s].src_desc) by {
                    assert(lookups[s] is Ok);
                    assert(parts[s] == pieces(request.segments@, begin, end)[s]);
                }
            }
        }
    }
    (count, size)
}

/// Every byte of the segments of an accepted gathered write is taken to its place in the
/// destination by exactly one of the writes that the domains are given.
pub proof fn every_gathered_byte_reaches_its_destination<D: RdmaDomain, C, A, const N: usize>(
    after: DomainGroup<D, C, A, N>,
    before: DomainGroup<D, C, A, N>,
    id: TransferId,
    request: GatherTransferRequest,
    counter: Option<C>,
    byte: int,
) -> (carrier: int)
    requires
        before.wf(),
        gather_in_range(&request, N as int),
        after.gather_submitted(&before, id, &request, counter, Ok(())),
        0 <= byte < source_bytes(request.segments@).len(),
    ensures
        0 <= carrier < N,
        forall|i: int, e: int|
            #![trigger after.given(&before, i)[e]]
            0 <= i < N && 0 <= e < after.given(&before, i).len() ==> (delivers_byte(
                after.given(&before, i)[e],
                source_bytes(request.segments@)[byte],
                request.dst_mr.ptr + request.dst_offset + byte,
            ) <==> i == carrier && e == 0),
        after.given(&before, carrier).len() == 1,
{
    let n = N as int;
    let rr = before.rr_next as int;
    let bytes = source_bytes(request.segments@);
    let total = bytes.len() as int;
    let (count, size) = gathered_writes_keep_their_course(after, before, id, request, counter);
    if size <= 0 {
        lemma_mul_le(0, count, -size);
        assert(count * (-size) == -(count * size)) by (nonlinear_arith);
    }
    lemma_fundamental_div_mod(byte, size);
    let k = byte / size;
    assert(size * k == k * size) by (nonlinear_arith);
    if k < 0 {
        lemma_mul_le(k, -1, size);
    }
    if k >= count {
        lemma_mul_le(count, k, size);
    }
    lemma_mul_step(k, size);
    let carrier = request.domain.domain_of_shard(rr, k, n);
    lemma_shard_of_domain(request.domain, rr, k, n);
    assert(after.given(&before, carrier).len() == 1);
    let from = bytes[byte];
    let to = request.dst_mr.ptr + request.dst_offset + byte;
    assert forall|i: int, e: int|
        #![trigger after.given(&before, i)[e]]
        0 <= i < N && 0 <= e < after.given(&before, i).len() implies (delivers_byte(
        after.given(&before, i)[e],
        from,
        to,
    ) <==> i == carrier && e == 0) by {
        let given = after.given(&before, i);
        match shard_on(request.domain, rr, i, n) {
            Some(j) => {
                lemma_steps_of_shard(request.domain, rr, i, n);
                lemma_mul_step(j, size);
                if j < k {
                    lemma_mul_le(j + 1, k, size);
                }
                if j > k {
                    lemma_mul_le(k + 1, j, size);
                }
                if j == k {
                    let write = given[0]->Write_op->Gather_0;
                    let b = byte - k * size;
                    assert(bytes.subrange(k * size, k * size + write.length)[b] == from);
                }
            },
            None => {},
        }
    }
    carrier
}

/// A gathered write is accepted only if it has from one to sixteen segments, none of them empty
/// or longer than a descriptor of the hardware can say, if its descriptor has an entry for every
/// domain, and if the group has the domains that it asks for. If the domains know all its
/// sources as well, it is accepted. A refused one gives the domains nothing, and no transfer
/// begins.
pub proof fn gathered_write_is_accepted_if_it_can_be<D: RdmaDomain, C, A, const N: usize>(
    after: DomainGroup<D, C, A, N>,
    before: DomainGroup<D, C, A, N>,
    id: TransferId,
    request: GatherTransferRequest,
    counter: Option<C>,
    result: Result<(), FabricLibError>,
)
    requires
        before.wf(),
        gather_in_range(&request, N as int),
        after.gather_submitted(&before, id, &request, counter, result),
    ensures
        ({
            let well_formed = {
                &&& 1 <= request.segments@.len() <= 16
                &&& forall|s: int|
                    #![trigger request.segments@[s]]
                    0 <= s < request.segments@.len() ==> 0 < request.segments@[s].length
                        <= 0xffff_ffff
                &&& source_bytes(request.segments@).len() <= usize::MAX
                &&& request.dst_mr.addr_rkey_list@.len() == N
                &&& match request.domain {
                    DomainGroupRouting::RoundRobinSharded { num_shards } => num_shards <= N,
                    DomainGroupRouting::Pinned { domain_idx } => domain_idx < N,
                }
            };
            let known = forall|i: int, s: int|
                #![trigger before.domains[i], request.segments@[s]]
                0 <= i < N && 0 <= s < request.segments@.len() ==> before.domains[i].mem_desc(
                    request.segments@[s].src_mr.ptr,
                ) is Ok;
            &&& result is Ok ==> well_formed
            &&& well_formed && known ==> result is Ok
        }),
        result is Err ==> after.domains == before.domains && after.write_ops == before.write_ops,
{
    let n = N as int;
    let rr = before.rr_next as int;
    lemma_source_bytes_len(request.segments@);
    if gather_fault(&request, n) is None && forall|i: int, s: int|
        #![trigger before.domains[i], request.segments@[s]]
        0 <= i < N && 0 <= s < request.segments@.len() ==> before.domains[i].mem_desc(
            request.segments@[s].src_mr.ptr,
        ) is Ok {
        let count = gather_count(&request) as int;
        lemma_total_length_bounds(request.segments@, u32::MAX as int);
        lemma_range_count(total_length(request.segments@), shard_count(request.domain));
        assert forall|k: int| 0 <= k < count implies all_found(
            #[trigger] before.gather_lookups(&request, k),
        ) by {
            lemma_shard_of_domain(request.domain, rr, k, n);
            let i = before.gather_domain(&request, k);
            let (begin, end) = gather_range(&request, k);
            let lookups = before.gather_lookups(&request, k);
            assert forall|j: int| #![trigger lookups[j]] 0 <= j < lookups.len() implies lookups[j] is Ok by {
                let s = lemma_piece_of_segment(request.segments@, begin, end, j);
                assert(before.domains[i].mem_desc(request.segments@[s].src_mr.ptr) is Ok);
            }
        }
        assert(before.gather_found(&request, count));
    }
}

/// Every part is of the region of some segment.
proof fn lemma_piece_of_segment(
    segments: Seq<GatherSegment>,
    begin: int,
    end: int,
    j: int,
) -> (s: int)
    requires
        0 <= j < pieces(segments, begin, end).len(),
    ensures
        0 <= s < segments.len(),
        pieces(segments, begin, end)[j].src_mr == segments[s].src_mr,
    decreases segments.len(),
{
    let rest = segments.drop_last();
    if j < pieces(rest, begin, end).len() {
        let s = lemma_piece_of_segment(rest, begin, end, j);
        assert(rest[s] == segments[s]);
        s
    } else {
        segments.len() - 1
    }
}

} // verus!
