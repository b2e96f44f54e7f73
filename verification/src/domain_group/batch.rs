//! Ordered batches of writes on one queue pair.
use vstd::prelude::*;

use crate::api::{
    BatchWrite, DomainAddress, GatherSegment, MAX_GATHER_SEGMENTS, MAX_WRITE_BATCH_WR,
    MemoryRegionLocalDescriptor, TransferId, WRITE_QP_LANES, WriteBatchRequest,
};
use crate::domain_group::delivery::lemma_only_one;
use crate::domain_group::gather::named_segments;
use crate::domain_group::{DomainGroup, fresh_context, posted};
use crate::error::FabricLibError;
use crate::provider::{DomainEvent, RdmaDomain};
use crate::rdma_op::{GatherSource, GatherWrite, GatherWriteOp, Write, WriteOp, gather_writes};
use crate::segments::{
    lemma_source_bytes_len, lemma_total_length_nonneg, lemma_total_length_take, source_bytes,
    total_length,
};

verus! {

/// Why the segment `s` of a write cannot be sent through `domain`: `before` bytes come before
/// it.
pub open spec fn segment_fault<D: RdmaDomain>(
    domain: &D,
    segment: GatherSegment,
    before: int,
) -> Option<FabricLibError> {
    if before + segment.length > u64::MAX {
        Some(FabricLibError::Custom("write batch length overflow"))
    } else if segment.length == 0 || before + segment.length > u32::MAX {
        Some(FabricLibError::Custom("write batch exceeds SGE length limit"))
    } else if segment.src_mr.ptr + segment.src_offset + segment.length > u64::MAX {
        Some(FabricLibError::Custom("write batch source overflow"))
    } else {
        match domain.mem_desc(segment.src_mr.ptr) {
            Ok(_) => None,
            Err(error) => Some(error),
        }
    }
}

/// Why the first faulty one of the first `upto` segments cannot be sent.
pub open spec fn segments_fault<D: RdmaDomain>(
    domain: &D,
    segments: Seq<GatherSegment>,
    upto: int,
) -> Option<FabricLibError>
    decreases upto,
{
    if upto <= 0 {
        None
    } else {
        match segments_fault(domain, segments, upto - 1) {
            Some(fault) => Some(fault),
            None => segment_fault(
                domain,
                segments[upto - 1],
                total_length(segments.take(upto - 1)),
            ),
        }
    }
}

/// Why one write of a batch for `n` domains cannot be sent through `domain`, which is the
/// domain `d`; `previous` is the address that the write before it goes to.
pub open spec fn write_fault<D: RdmaDomain>(
    domain: &D,
    write: &BatchWrite,
    d: int,
    n: int,
    previous: Option<Seq<u8>>,
) -> Option<FabricLibError> {
    if write.dst_mr.width() != n || (write.segments@.len() == 0 && write.imm_data is None)
        || write.segments@.len() > MAX_GATHER_SEGMENTS {
        Some(FabricLibError::Custom("invalid write batch registration or segments"))
    } else if previous is Some && previous != Some(write.dst_mr.addr(d)) {
        Some(FabricLibError::Custom("write batch destinations use different peers"))
    } else {
        match segments_fault(domain, write.segments@, write.segments@.len() as int) {
            Some(fault) => Some(fault),
            None => if write.dst_mr.ptr + write.dst_offset + total_length(write.segments@)
                > u64::MAX {
                Some(FabricLibError::Custom("write batch destination overflow"))
            } else {
                None
            },
        }
    }
}

/// The address that the write before the write `w` goes to.
pub open spec fn previous_peer(writes: Seq<BatchWrite>, w: int, d: int) -> Option<Seq<u8>> {
    if w > 0 {
        Some(writes[w - 1].dst_mr.addr(d))
    } else {
        None
    }
}

/// Why the first faulty one of the first `upto` writes cannot be sent.
pub open spec fn writes_fault<D: RdmaDomain>(
    domain: &D,
    writes: Seq<BatchWrite>,
    d: int,
    n: int,
    upto: int,
) -> Option<FabricLibError>
    decreases upto,
{
    if upto <= 0 {
        None
    } else {
        match writes_fault(domain, writes, d, n, upto - 1) {
            Some(fault) => Some(fault),
            None => write_fault(
                domain,
                &writes[upto - 1],
                d,
                n,
                previous_peer(writes, upto - 1, d),
            ),
        }
    }
}

/// One write of a batch, as the domain `d` is given it.
pub open spec fn batch_write<D: RdmaDomain>(
    domain: &D,
    write: &BatchWrite,
    d: int,
) -> GatherWrite {
    GatherWrite {
        sources: Seq::new(
            write.segments@.len(),
            |s: int|
                GatherSource {
                    src_ptr: write.segments@[s].src_mr.ptr,
                    src_desc: domain.mem_desc(write.segments@[s].src_mr.ptr)->Ok_0,
                    src_offset: write.segments@[s].src_offset,
                    length: write.segments@[s].length,
                },
        ),
        imm_data: write.imm_data,
        dst_ptr: write.dst_mr.ptr,
        dst_rkey: write.dst_mr.rkey(d),
        dst_offset: write.dst_offset,
        length: total_length(write.segments@) as u64,
    }
}

/// Every write of a batch, as the domain `d` is given them.
pub open spec fn batch_writes<D: RdmaDomain>(
    domain: &D,
    writes: Seq<BatchWrite>,
    d: int,
) -> Seq<GatherWrite> {
    Seq::new(writes.len(), |w: int| batch_write(domain, &writes[w], d))
}

/// Checks one write of a batch and turns it into an operation of the domain `d`.
fn plan_write<D: RdmaDomain>(
    domain: &D,
    write: &BatchWrite,
    d: usize,
    n: usize,
    previous: Option<&DomainAddress>,
) -> (result: Result<GatherWriteOp, FabricLibError>)
    requires
        d < n,
    ensures
        match write_fault(
            domain,
            write,
            d as int,
            n as int,
            match previous {
                Some(addr) => Some(addr@),
                None => None,
            },
        ) {
            Some(fault) => result == Err::<GatherWriteOp, FabricLibError>(fault),
            None => result matches Ok(op) && op@ == batch_write(domain, write, d as int),
        },
{
    let count: usize = write.segments.len();
    if write.dst_mr.addr_rkey_list.len() != n || (count == 0 && write.imm_data.is_none()) || count
        > MAX_GATHER_SEGMENTS {
        return Err(FabricLibError::Custom("invalid write batch registration or segments"));
    }
    let entry = &write.dst_mr.addr_rkey_list[d];
    if let Some(addr) = previous {
        if !addr.same_as(&entry.0) {
            return Err(FabricLibError::Custom("write batch destinations use different peers"));
        }
    }
    let mut sources: Vec<GatherSource> = Vec::new();
    let mut length: u64 = 0;
    let mut s: usize = 0;
    let ghost segments = write.segments@;
    let ghost before = match previous {
        Some(addr) => Some(addr@),
        None => None,
    };
    assert(segments.take(0) =~= Seq::<GatherSegment>::empty());
    while s < count
        invariant
            s <= count,
            count == segments.len(),
            segments == write.segments@,
            segments_fault(domain, segments, count as int) is Some ==> write_fault(
                domain,
                write,
                d as int,
                n as int,
                before,
            ) == segments_fault(domain, segments, count as int),
            before == (match previous {
                Some(addr) => Some(addr@),
                None => None,
            }),
            length == total_length(segments.take(s as int)),
            length <= u32::MAX,
            segments_fault(domain, segments, s as int) is None,
            sources@.len() == s,
            forall|j: int|
                #![trigger sources@[j]]
                0 <= j < s ==> sources@[j] == batch_write(domain, write, d as int).sources[j],
        decreases count - s,
    {
        let segment = write.segments[s];
        proof {
            lemma_total_length_take(segments, s as int);
        }
        length = match length.checked_add(segment.length) {
            Some(sum) => sum,
            None => {
                proof {
                    lemma_segments_fault_stays(domain, segments, s + 1, count as int);
                }
                return Err(FabricLibError::Custom("write batch length overflow"));
            },
        };
        if segment.length == 0 || length > u32::MAX as u64 {
            proof {
                lemma_segments_fault_stays(domain, segments, s + 1, count as int);
            }
            return Err(FabricLibError::Custom("write batch exceeds SGE length limit"));
        }
        let in_range: bool = match segment.src_mr.ptr.checked_add(segment.src_offset) {
            Some(first) => first.checked_add(segment.length).is_some(),
            None => false,
        };
        if !in_range {
            proof {
                lemma_segments_fault_stays(domain, segments, s + 1, count as int);
            }
            return Err(FabricLibError::Custom("write batch source overflow"));
        }
        let src_desc = match domain.get_mem_desc(segment.src_mr.ptr) {
            Ok(desc) => desc,
            Err(error) => {
                proof {
                    lemma_segments_fault_stays(domain, segments, s + 1, count as int);
                }
                return Err(error);
            },
        };
        sources.push(
            GatherSource {
                src_ptr: segment.src_mr.ptr,
                src_desc,
                src_offset: segment.src_offset,
                length: segment.length,
            },
        );
        s = s + 1;
    }
    assert(segments.take(count as int) =~= segments);
    let in_range: bool = match write.dst_mr.ptr.checked_add(write.dst_offset) {
        Some(first) => first.checked_add(length).is_some(),
        None => false,
    };
    if !in_range {
        return Err(FabricLibError::Custom("write batch destination overflow"));
    }
    assert(sources@ =~= batch_write(domain, write, d as int).sources);
    Ok(
        GatherWriteOp {
            sources,
            imm_data: write.imm_data,
            dst_ptr: write.dst_mr.ptr,
            dst_rkey: entry.1,
            dst_offset: write.dst_offset,
            length,
        },
    )
}

/// A fault among the first segments is the fault of the whole list.
proof fn lemma_segments_fault_stays<D: RdmaDomain>(
    domain: &D,
    segments: Seq<GatherSegment>,
    upto: int,
    end: int,
)
    requires
        0 <= upto <= end,
        segments_fault(domain, segments, upto) is Some,
    ensures
        segments_fault(domain, segments, end) == segments_fault(domain, segments, upto),
    decreases end - upto,
{
    if upto < end {
        lemma_segments_fault_stays(domain, segments, upto, end - 1);
    }
}

/// A fault among the first writes is the fault of the whole batch.
proof fn lemma_writes_fault_stays<D: RdmaDomain>(
    domain: &D,
    writes: Seq<BatchWrite>,
    d: int,
    n: int,
    upto: int,
    end: int,
)
    requires
        0 <= upto <= end,
        writes_fault(domain, writes, d, n, upto) is Some,
    ensures
        writes_fault(domain, writes, d, n, end) == writes_fault(domain, writes, d, n, upto),
    decreases end - upto,
{
    if upto < end {
        lemma_writes_fault_stays(domain, writes, d, n, upto, end - 1);
    }
}

/// A batch without faults goes to one peer.
pub proof fn lemma_one_peer<D: RdmaDomain>(
    domain: &D,
    writes: Seq<BatchWrite>,
    d: int,
    n: int,
    upto: int,
    w: int,
)
    requires
        0 <= w < upto <= writes.len(),
        writes_fault(domain, writes, d, n, upto) is None,
    ensures
        writes[w].dst_mr.addr(d) == writes[0].dst_mr.addr(d),
    decreases upto,
{
    if w > 0 {
        if w < upto - 1 {
            lemma_one_peer(domain, writes, d, n, upto - 1, w);
        } else {
            lemma_one_peer(domain, writes, d, n, upto - 1, w - 1);
        }
    }
}

impl<D: RdmaDomain, C, A, const N: usize> DomainGroup<D, C, A, N> {
    /// Why the group refuses a batch.
    pub open spec fn batch_fault(&self, request: &WriteBatchRequest) -> Option<FabricLibError> {
        let d = (request.lane / WRITE_QP_LANES) as int;
        if request.writes@.len() == 0 || request.writes@.len() > MAX_WRITE_BATCH_WR {
            Some(FabricLibError::Custom("invalid write batch length"))
        } else if d >= N {
            Some(FabricLibError::Custom("write batch lane is out of bounds"))
        } else if !self.domains[d].batches() {
            Some(FabricLibError::Custom("provider does not support ordered write batches"))
        } else {
            writes_fault(
                &self.domains[d],
                request.writes@,
                d,
                N as int,
                request.writes@.len() as int,
            )
        }
    }

    /// What becomes of a request for a batch of writes.
    pub open spec fn batch_submitted(
        &self,
        before: &Self,
        transfer_id: TransferId,
        request: &WriteBatchRequest,
        tx_counter: Option<C>,
        result: Result<(), FabricLibError>,
    ) -> bool {
        match before.batch_fault(request) {
            Some(fault) => result == Err::<(), FabricLibError>(fault) && *self == *before,
            None => {
                let d = (request.lane / WRITE_QP_LANES) as int;
                &&& result is Ok
                &&& self.rr_next == before.rr_next
                &&& self.same_peers(before)
                &&& self.write_ops@ == before.write_ops@.insert(
                    transfer_id.0,
                    fresh_context(1, tx_counter),
                )
                &&& self.histories() == before.histories().update(
                    d,
                    before.histories()[d].push(
                        DomainEvent::Write {
                            id: transfer_id,
                            addr: request.writes@[0].dst_mr.addr(d),
                            op: Write::Batch {
                                qp_lane: request.lane % WRITE_QP_LANES,
                                writes: batch_writes(
                                    &before.domains[d],
                                    request.writes@,
                                    d,
                                ),
                            },
                        },
                    ),
                )
            },
        }
    }

    /// Hands a batch of writes to the domain and queue pair of its lane.
    ///
    /// The complete list is checked before the domain is given any write: a refused batch
    /// changes nothing.
    pub fn submit_write_batch(
        &mut self,
        transfer_id: TransferId,
        request: WriteBatchRequest,
        tx_counter: Option<C>,
    ) -> (result: Result<(), FabricLibError>)
        requires
            old(self).wf(),
        ensures
            final(self).wf(),
            final(self).batch_submitted(old(self), transfer_id, &request, tx_counter, result),
    {
        let count: usize = request.writes.len();
        if count == 0 || count > MAX_WRITE_BATCH_WR {
            return Err(FabricLibError::Custom("invalid write batch length"));
        }
        let d: usize = request.lane / WRITE_QP_LANES;
        if d >= N {
            return Err(FabricLibError::Custom("write batch lane is out of bounds"));
        }
        if !self.domains[d].supports_write_batch() {
            return Err(
                FabricLibError::Custom("provider does not support ordered write batches"),
            );
        }
        let ghost domain = self.domains[d as int];
        let mut ops: Vec<GatherWriteOp> = Vec::with_capacity(count);
        let mut w: usize = 0;
        while w < count
            invariant
                w <= count,
                count == request.writes@.len(),
                0 < count <= MAX_WRITE_BATCH_WR,
                d < N,
                d == request.lane / WRITE_QP_LANES,
                *self == *old(self),
                self.wf(),
                domain == self.domains[d as int],
                domain.batches(),
                writes_fault(&domain, request.writes@, d as int, N as int, w as int) is None,
                ops@.len() == w,
                forall|j: int|
                    #![trigger ops@[j]]
                    0 <= j < w ==> ops@[j]@ == batch_write(&domain, &request.writes@[j], d as int)
                        && request.writes@[j].dst_mr.width() == N,
            decreases count - w,
        {
            let previous: Option<&DomainAddress> = if w > 0 {
                assert(ops@[w - 1]@ == batch_write(&domain, &request.writes@[w - 1], d as int));
                Some(&request.writes[w - 1].dst_mr.addr_rkey_list[d].0)
            } else {
                None
            };
            match plan_write(&self.domains[d], &request.writes[w], d, N, previous) {
                Ok(op) => {
                    ops.push(op);
                },
                Err(fault) => {
                    proof {
                        lemma_writes_fault_stays(
                            &domain,
                            request.writes@,
                            d as int,
                            N as int,
                            w + 1,
                            count as int,
                        );
                    }
                    return Err(fault);
                },
            }
            w = w + 1;
        }
        assert(gather_writes(ops@) =~= batch_writes(&domain, request.writes@, d as int));
        assert(ops@[0]@ == batch_write(&domain, &request.writes@[0], d as int));
        let destination = request.writes[0].dst_mr.addr_rkey_list[d].0.clone();
        self.track(transfer_id, 1, tx_counter);
        assert(self.histories() =~= old(self).histories());
        self.post(
            d,
            transfer_id,
            destination,
            WriteOp::Batch { qp_lane: request.lane % WRITE_QP_LANES, writes: ops },
        );
        Ok(())
    }
}

/// An accepted batch gives one event, to the domain of its lane: all its writes in order, on the
/// queue pair of the lane. Each write goes through the address and the key of that domain's own
/// entry and has the immediate; its sources are registered with the domain and name exactly the
/// bytes of its segments, in order, and it takes them to its destination.
pub proof fn batched_writes_keep_their_course<D: RdmaDomain, C, A, const N: usize>(
    after: DomainGroup<D, C, A, N>,
    before: DomainGroup<D, C, A, N>,
    id: TransferId,
    request: WriteBatchRequest,
    counter: Option<C>,
) -> (d: int)
    requires
        before.wf(),
        after.batch_submitted(&before, id, &request, counter, Ok(())),
    ensures
        after.continues(&before),
        after.rr_next == before.rr_next,
        after.write_ops@[id.0].num_used_domains == 1,
        0 <= d < N,
        before.domains[d].batches(),
        forall|i: int|
            #![trigger after.given(&before, i)]
            0 <= i < N ==> after.given(&before, i).len() == if i == d {
                1nat
            } else {
                0
            },
        after.given(&before, d)[0] matches DomainEvent::Write {
            id: given_id,
            addr,
            op: Write::Batch { qp_lane, writes },
        } && {
            &&& given_id == id
            &&& request.lane == 2 * d + qp_lane
            &&& qp_lane < 2
            &&& writes.len() == request.writes@.len()
            &&& forall|w: int|
                #![trigger writes[w]]
                0 <= w < writes.len() ==> {
                    let (write, asked) = (writes[w], request.writes@[w]);
                    &&& addr == asked.dst_mr.addr_rkey_list@[d].0@
                    &&& write.dst_rkey == asked.dst_mr.addr_rkey_list@[d].1
                    &&& write.imm_data == asked.imm_data
                    &&& write.dst_ptr == asked.dst_mr.ptr
                    &&& write.dst_offset == asked.dst_offset
                    &&& source_bytes(named_segments(write.sources)) == source_bytes(asked.segments@)
                    &&& write.length == source_bytes(asked.segments@).len()
                    &&& write.sources.len() == asked.segments@.len()
                    &&& forall|s: int|
                        #![trigger write.sources[s]]
                        0 <= s < write.sources.len() ==> before.domains[d].mem_desc(
                            write.sources[s].src_ptr,
                        ) == Ok::<MemoryRegionLocalDescriptor, FabricLibError>(
                            write.sources[s].src_desc,
                        )
                }
        },
{
    let d = (request.lane / WRITE_QP_LANES) as int;
    let domain = before.domains[d];
    let count = request.writes@.len() as int;
    let writes = batch_writes(&domain, request.writes@, d);
    let event = DomainEvent::Write {
        id,
        addr: request.writes@[0].dst_mr.addr(d),
        op: Write::Batch { qp_lane: request.lane % WRITE_QP_LANES, writes },
    };
    let posts = seq![(d, event)];
    assert(posts.drop_last() =~= Seq::<(int, DomainEvent)>::empty());
    assert(posted(before.histories(), posts.drop_last()) == before.histories());
    assert(after.histories() == posted(before.histories(), posts));
    lemma_only_one(after, before, posts);
    assert forall|w: int| #![trigger writes[w]] 0 <= w < writes.len() implies {
        let (write, asked) = (writes[w], request.writes@[w]);
        &&& event->Write_addr == asked.dst_mr.addr_rkey_list@[d].0@
        &&& write.dst_rkey == asked.dst_mr.addr_rkey_list@[d].1
        &&& write.imm_data == asked.imm_data
        &&& write.dst_ptr == asked.dst_mr.ptr
        &&& write.dst_offset == asked.dst_offset
        &&& source_bytes(named_segments(write.sources)) == source_bytes(asked.segments@)
        &&& write.length == source_bytes(asked.segments@).len()
        &&& write.sources.len() == asked.segments@.len()
        &&& forall|s: int|
            #![trigger write.sources[s]]
            0 <= s < write.sources.len() ==> before.domains[d].mem_desc(write.sources[s].src_ptr)
                == Ok::<MemoryRegionLocalDescriptor, FabricLibError>(write.sources[s].src_desc)
    } by {
        let (write, asked) = (writes[w], request.writes@[w]);
        lemma_one_peer(&domain, request.writes@, d, N as int, count, w);
        lemma_no_fault_before(&domain, request.writes@, d, N as int, count, w);
        lemma_segments_sound(&domain, asked.segments@, asked.segments@.len() as int);
        assert(named_segments(write.sources) =~= asked.segments@);
        lemma_source_bytes_len(asked.segments@);
        lemma_total_length_nonneg(asked.segments@);
        assert forall|s: int|
            #![trigger write.sources[s]]
            0 <= s < write.sources.len() implies before.domains[d].mem_desc(
            write.sources[s].src_ptr,
        ) == Ok::<MemoryRegionLocalDescriptor, FabricLibError>(write.sources[s].src_desc) by {
            assert(segment_sound(&domain, asked.segments@[s]));
        }
    }
    d
}

/// A segment has bytes, its addresses are addresses, and the domain knows its region.
pub open spec fn segment_sound<D: RdmaDomain>(domain: &D, segment: GatherSegment) -> bool {
    &&& segment.length > 0
    &&& segment.src_mr.ptr + segment.src_offset + segment.length <= 0xffff_ffff_ffff_ffff
    &&& domain.mem_desc(segment.src_mr.ptr) is Ok
}

/// A write of a batch for `n` domains has an entry for every domain, an immediate or from one to
/// sixteen sound segments of less than four gibibytes together, and a destination whose
/// addresses are addresses.
pub open spec fn write_sound<D: RdmaDomain>(domain: &D, write: BatchWrite, n: int) -> bool {
    &&& write.dst_mr.addr_rkey_list@.len() == n
    &&& write.segments@.len() <= 16
    &&& write.segments@.len() > 0 || write.imm_data is Some
    &&& source_bytes(write.segments@).len() <= 0xffff_ffff
    &&& forall|s: int|
        #![trigger write.segments@[s]]
        0 <= s < write.segments@.len() ==> segment_sound(domain, write.segments@[s])
    &&& write.dst_mr.ptr + write.dst_offset + source_bytes(write.segments@).len()
        <= 0xffff_ffff_ffff_ffff
}

/// Segments without faults are sound, and have few enough bytes.
proof fn lemma_segments_sound<D: RdmaDomain>(domain: &D, segments: Seq<GatherSegment>, upto: int)
    requires
        0 <= upto <= segments.len(),
    ensures
        segments_fault(domain, segments, upto) is None <==> {
            &&& total_length(segments.take(upto)) <= 0xffff_ffff
            &&& forall|s: int|
                #![trigger segments[s]]
                0 <= s < upto ==> segment_sound(domain, segments[s])
        },
    decreases upto,
{
    lemma_total_length_nonneg(segments.take(upto));
    if upto > 0 {
        lemma_segments_sound(domain, segments, upto - 1);
        lemma_total_length_take(segments, upto - 1);
        lemma_total_length_nonneg(segments.take(upto - 1));
        if segments_fault(domain, segments, upto - 1) is None {
            assert(segment_fault(
                domain,
                segments[upto - 1],
                total_length(segments.take(upto - 1)),
            ) is None <==> segment_sound(domain, segments[upto - 1]) && total_length(
                segments.take(upto),
            ) <= 0xffff_ffff);
        }
    } else {
        assert(segments.take(upto) =~= Seq::<GatherSegment>::empty());
    }
}

/// A write without faults is sound.
proof fn lemma_write_sound<D: RdmaDomain>(
    domain: &D,
    write: BatchWrite,
    d: int,
    n: int,
    previous: Option<Seq<u8>>,
)
    ensures
        write_fault(domain, &write, d, n, previous) is None <==> write_sound(domain, write, n) && (
        previous is Some ==> previous == Some(write.dst_mr.addr_rkey_list@[d].0@)),
{
    let segments = write.segments@;
    lemma_segments_sound(domain, segments, segments.len() as int);
    lemma_source_bytes_len(segments);
    assert(segments.take(segments.len() as int) =~= segments);
}

/// No write of a batch without faults has a fault.
proof fn lemma_no_fault_before<D: RdmaDomain>(
    domain: &D,
    writes: Seq<BatchWrite>,
    d: int,
    n: int,
    upto: int,
    w: int,
)
    requires
        0 <= w < upto,
        writes_fault(domain, writes, d, n, upto) is None,
    ensures
        write_fault(domain, &writes[w], d, n, previous_peer(writes, w, d)) is None,
    decreases upto,
{
    if w < upto - 1 {
        lemma_no_fault_before(domain, writes, d, n, upto - 1, w);
    }
}

/// Writes are without faults exactly if each is sound and all go to one peer.
proof fn lemma_writes_sound<D: RdmaDomain>(
    domain: &D,
    writes: Seq<BatchWrite>,
    d: int,
    n: int,
    upto: int,
)
    requires
        0 <= upto <= writes.len(),
    ensures
        writes_fault(domain, writes, d, n, upto) is None <==> forall|w: int|
            #![trigger writes[w]]
            0 <= w < upto ==> write_sound(domain, writes[w], n)
                && writes[w].dst_mr.addr_rkey_list@[d].0@
                == writes[0].dst_mr.addr_rkey_list@[d].0@,
    decreases upto,
{
    if upto > 0 {
        lemma_writes_sound(domain, writes, d, n, upto - 1);
        lemma_write_sound(domain, writes[upto - 1], d, n, previous_peer(writes, upto - 1, d));
        if upto > 1 {
            assert(writes[upto - 2] == writes[upto - 2]);
            if writes_fault(domain, writes, d, n, upto - 1) is None {
                assert(writes[upto - 2].dst_mr.addr_rkey_list@[d].0@
                    == writes[0].dst_mr.addr_rkey_list@[d].0@);
            }
        }
    }
}

/// A batch is accepted exactly if it has from one to sixty-four writes, its lane belongs to a
/// domain that takes batches, and each of its writes is sound and goes to the same peer. A
/// refused one changes nothing at all.
pub proof fn batch_is_accepted_if_it_can_be<D: RdmaDomain, C, A, const N: usize>(
    after: DomainGroup<D, C, A, N>,
    before: DomainGroup<D, C, A, N>,
    id: TransferId,
    request: WriteBatchRequest,
    counter: Option<C>,
    result: Result<(), FabricLibError>,
)
    requires
        after.batch_submitted(&before, id, &request, counter, result),
    ensures
        ({
            let d = request.lane as int / 2;
            let writes = request.writes@;
            result is Ok <==> {
                &&& 1 <= writes.len() <= 64
                &&& d < N
                &&& before.domains[d].batches()
                &&& forall|w: int|
                    #![trigger writes[w]]
                    0 <= w < writes.len() ==> write_sound(&before.domains[d], writes[w], N as int)
                        && writes[w].dst_mr.addr_rkey_list@[d].0@
                        == writes[0].dst_mr.addr_rkey_list@[d].0@
            }
        }),
        result is Err ==> after == before,
{
    let d = (request.lane / WRITE_QP_LANES) as int;
    if d < N {
        lemma_writes_sound(
            &before.domains[d],
            request.writes@,
            d,
            N as int,
            request.writes@.len() as int,
        );
    }
}

} // verus!
