//! Ordered write batches: checked and routed as a whole before any worker sees one.
use vstd::arithmetic::div_mod::{lemma_fundamental_div_mod, lemma_mod_bound};
use vstd::prelude::*;

use crate::api::{
    BatchWrite, DomainAddress, GatherSegment, MAX_GATHER_SEGMENTS, MAX_WRITE_BATCH_WR,
    TransferRequest, WRITE_QP_LANES, WriteBatchRequest, keys_of,
};
use crate::cuda_compat::Device;
use crate::domain_group::DomainGroup;
use crate::domain_group::batch::{segments_fault, writes_fault};
use crate::error::FabricLibError;
use crate::fabric_engine::FabricEngine;
use crate::fabric_engine::lanes::{
    lemma_worker_fits, narrow_host_descriptor, narrowable, narrowed, topology_error,
};
use crate::fabric_engine::routing::{is_part_of, lemma_narrowed_is_part, same_errand};
use crate::provider::RdmaDomain;
use crate::segments::{
    lemma_source_bytes_len, lemma_total_length_nonneg, lemma_total_length_take, source_bytes,
    total_length,
};

verus! {

/// What a list of segments breaks, looking at the first `upto`.
pub open spec fn sources_fault(
    engine: &FabricEngine,
    segments: Seq<GatherSegment>,
    upto: int,
) -> Option<FabricLibError>
    decreases upto,
{
    if upto <= 0 {
        None
    } else if sources_fault(engine, segments, upto - 1) is Some {
        sources_fault(engine, segments, upto - 1)
    } else {
        let source = segments[upto - 1];
        match engine.device_of(source.src_mr) {
            Err(error) => Some(error),
            Ok(device) => if device != Device::Host || source.length == 0 {
                Some(
                    FabricLibError::Custom("write batches require nonempty host-memory segments"),
                )
            } else if total_length(segments.take(upto)) > u32::MAX {
                Some(FabricLibError::Custom("write batch SGE length exceeds u32"))
            } else if source.src_mr.ptr + source.src_offset + source.length > u64::MAX {
                Some(FabricLibError::Custom("write batch source overflow"))
            } else {
                None
            },
        }
    }
}

impl FabricEngine {
    /// The worker that a batch goes to.
    pub open spec fn batch_worker(&self, batch: &WriteBatchRequest) -> int {
        if self.host_striped {
            batch.lane as int / (self.nets_per_gpu * WRITE_QP_LANES)
        } else {
            0
        }
    }

    /// The lane of a batch among those of its worker.
    pub open spec fn batch_lane(&self, batch: &WriteBatchRequest) -> int {
        if self.host_striped {
            batch.lane as int % (self.nets_per_gpu * WRITE_QP_LANES)
        } else {
            batch.lane as int
        }
    }

    /// Where a descriptor names the domain that a batch writes to.
    pub open spec fn batch_entry(&self, batch: &WriteBatchRequest) -> int {
        let domain = self.batch_lane(batch) / (WRITE_QP_LANES as int);
        if self.host_striped {
            self.batch_worker(batch) * self.nets_per_gpu + domain
        } else {
            domain
        }
    }

    /// What the write `w` of a batch breaks, those before it being in order.
    pub open spec fn batch_write_fault(&self, batch: &WriteBatchRequest, w: int) -> Option<
        FabricLibError,
    > {
        let write = batch.writes@[w];
        let domains = self.nets_per_gpu as int;
        if (write.segments@.len() == 0 && write.imm_data is None) || write.segments@.len()
            > MAX_GATHER_SEGMENTS {
            Some(FabricLibError::Custom("invalid write batch SGE count"))
        } else if sources_fault(self, write.segments@, write.segments@.len() as int) is Some {
            sources_fault(self, write.segments@, write.segments@.len() as int)
        } else if self.host_striped && !narrowable(
            write.dst_mr.width(),
            self.batch_worker(batch),
            self.workers@.len() as int,
            domains,
        ) {
            Some(topology_error())
        } else if !self.host_striped && write.dst_mr.width() != domains {
            Some(FabricLibError::Custom("write batch domain topology mismatch"))
        } else if w > 0 && write.dst_mr.addr(self.batch_entry(batch))
            != batch.writes@[w - 1].dst_mr.addr(self.batch_entry(batch)) {
            Some(FabricLibError::Custom("one write batch cannot target different peers"))
        } else if write.dst_mr.ptr + write.dst_offset + total_length(write.segments@) > u64::MAX {
            Some(FabricLibError::Custom("write batch destination overflow"))
        } else {
            None
        }
    }

    /// What the first `upto` writes of a batch break.
    pub open spec fn batch_writes_fault(&self, batch: &WriteBatchRequest, upto: int) -> Option<
        FabricLibError,
    >
        decreases upto,
    {
        if upto <= 0 {
            None
        } else if self.batch_writes_fault(batch, upto - 1) is Some {
            self.batch_writes_fault(batch, upto - 1)
        } else {
            self.batch_write_fault(batch, upto - 1)
        }
    }

    /// Why a batch is refused.
    pub open spec fn batch_fault(&self, batch: &WriteBatchRequest) -> Option<FabricLibError> {
        if batch.writes@.len() == 0 || batch.writes@.len() > MAX_WRITE_BATCH_WR || batch.lane
            >= self.lane_count() || !self.batches_supported() {
            Some(FabricLibError::Custom("invalid or unsupported write batch"))
        } else {
            self.batch_writes_fault(batch, batch.writes@.len() as int)
        }
    }

    /// One write of a batch as its worker gets it: the descriptor of a striped engine is
    /// narrowed to that worker.
    pub open spec fn write_prepared(
        &self,
        batch: &WriteBatchRequest,
        before: &BatchWrite,
        after: &BatchWrite,
    ) -> bool {
        &&& after.segments == before.segments
        &&& after.imm_data == before.imm_data
        &&& after.dst_offset == before.dst_offset
        &&& after.dst_mr@ == if self.host_striped {
            narrowed(before.dst_mr@, self.batch_worker(batch), self.nets_per_gpu as int)
        } else {
            before.dst_mr@
        }
    }

    /// A batch as its worker gets it.
    pub open spec fn batch_prepared(
        &self,
        before: &WriteBatchRequest,
        after: &WriteBatchRequest,
    ) -> bool {
        &&& after.lane == self.batch_lane(before)
        &&& after.writes@.len() == before.writes@.len()
        &&& forall|w: int|
            #![trigger after.writes@[w]]
            0 <= w < after.writes@.len() ==> self.write_prepared(
                before,
                &before.writes@[w],
                &after.writes@[w],
            )
    }

    /// The places that a batch names exist.
    pub proof fn lemma_batch_places(&self, batch: &WriteBatchRequest)
        requires
            self.wf(),
            batch.lane < self.lane_count(),
        ensures
            0 <= self.batch_worker(batch),
            0 <= self.batch_lane(batch) < self.nets_per_gpu * WRITE_QP_LANES,
            0 <= self.batch_lane(batch) / (WRITE_QP_LANES as int) < self.nets_per_gpu,
    {
        let m = self.nets_per_gpu * WRITE_QP_LANES;
        if self.host_striped {
            lemma_fundamental_div_mod(batch.lane as int, m);
            lemma_mod_bound(batch.lane as int, m);
            vstd::arithmetic::div_mod::lemma_div_pos_is_pos(batch.lane as int, m);
        }
    }

    /// Adds up the lengths of a write's segments, checking each.
    fn check_sources(&self, segments: &Vec<GatherSegment>) -> (length: Result<u64, FabricLibError>)
        ensures
            match sources_fault(self, segments@, segments@.len() as int) {
                Some(fault) => length == Err::<u64, FabricLibError>(fault),
                None => length matches Ok(length) && length == total_length(segments@),
            },
    {
        let count: usize = segments.len();
        let mut length: u64 = 0;
        let mut s: usize = 0;
        assert(segments@.take(0) =~= Seq::<GatherSegment>::empty());
        while s < count
            invariant
                s <= count,
                count == segments@.len(),
                sources_fault(self, segments@, s as int) is None,
                length == total_length(segments@.take(s as int)),
                length <= u32::MAX,
            decreases count - s,
        {
            let source = segments[s];
            proof {
                lemma_total_length_take(segments@, s as int);
            }
            let fault: Option<FabricLibError> = match self.device_for_mr(source.src_mr) {
                Err(error) => Some(error),
                Ok(device) => {
                    let sum = length.checked_add(source.length);
                    if device != Device::Host || source.length == 0 {
                        Some(
                            FabricLibError::Custom(
                                "write batches require nonempty host-memory segments",
                            ),
                        )
                    } else if sum.is_none() || sum.unwrap() > u32::MAX as u64 {
                        Some(FabricLibError::Custom("write batch SGE length exceeds u32"))
                    } else if !range_fits(source.src_mr.ptr, source.src_offset, source.length) {
                        Some(FabricLibError::Custom("write batch source overflow"))
                    } else {
                        None
                    }
                },
            };
            assert(fault == sources_fault(self, segments@, s + 1));
            if let Some(fault) = fault {
                proof {
                    lemma_sources_fault_stays(self, segments@, s + 1, count as int);
                }
                return Err(fault);
            }
            length = length + source.length;
            s = s + 1;
        }
        assert(segments@.take(count as int) =~= segments@);
        Ok(length)
    }

    /// Checks a batch and routes it: the worker that it goes to, and what that worker gets.
    pub fn prepare_write_batch(&self, batch: WriteBatchRequest) -> (prepared: Result<
        (usize, WriteBatchRequest),
        FabricLibError,
    >)
        requires
            self.wf(),
        ensures
            match self.batch_fault(&batch) {
                Some(fault) => prepared == Err::<(usize, WriteBatchRequest), FabricLibError>(fault),
                None => {
                    &&& prepared matches Ok((index, after)) && index == self.batch_worker(&batch)
                        && self.batch_prepared(&batch, &after)
                    &&& self.batch_worker(&batch) < self.workers@.len()
                },
            },
    {
        let ghost given = batch;
        let count: usize = batch.writes.len();
        if count == 0 || count > MAX_WRITE_BATCH_WR || batch.lane >= self.host_write_lane_count()
            || !self.supports_write_batches() {
            return Err(FabricLibError::Custom("invalid or unsupported write batch"));
        }
        let domains: usize = self.nets_per_gpu as usize;
        let lanes: usize = domains * WRITE_QP_LANES;
        let index: usize = if self.host_striped {
            batch.lane / lanes
        } else {
            0
        };
        let lane: usize = if self.host_striped {
            batch.lane % lanes
        } else {
            batch.lane
        };
        let domain: usize = lane / WRITE_QP_LANES;
        proof {
            self.lemma_batch_places(&given);
        }
        let ghost entry = self.batch_entry(&given);
        let ghost all = batch.writes@;
        let mut writes: Vec<BatchWrite> = Vec::with_capacity(count);
        let mut destination: Option<DomainAddress> = None;
        for item in it: batch.writes
            invariant
                self.wf(),
                all == it.seq(),
                given == batch,
                all == given.writes@,
                all.len() == count,
                0 < count <= MAX_WRITE_BATCH_WR,
                given.lane < self.lane_count(),
                self.batches_supported(),
                domains == self.nets_per_gpu,
                index == self.batch_worker(&given),
                lane == self.batch_lane(&given),
                domain == lane as int / (WRITE_QP_LANES as int),
                domain < domains,
                entry == self.batch_entry(&given),
                self.batch_writes_fault(&given, it.index() as int) is None,
                it.index() > 0 ==> index < self.workers@.len(),
                writes@.len() == it.index(),
                forall|w: int|
                    #![trigger writes@[w]]
                    0 <= w < writes@.len() ==> self.write_prepared(&given, &all[w], &writes@[w]),
                match destination {
                    None => it.index() == 0,
                    Some(address) => it.index() > 0 && address@ == all[it.index() - 1].dst_mr.addr(
                        entry,
                    ),
                },
        {
            let ghost k = it.index() as int;
            assert(all[k] == item);
            let mut write = item;
            let segments: usize = write.segments.len();
            if (segments == 0 && write.imm_data.is_none()) || segments > MAX_GATHER_SEGMENTS {
                proof {
                    self.lemma_writes_fault_stays(&given, k + 1, count as int);
                }
                return Err(FabricLibError::Custom("invalid write batch SGE count"));
            }
            let length: u64 = match self.check_sources(&write.segments) {
                Ok(length) => length,
                Err(fault) => {
                    proof {
                        self.lemma_writes_fault_stays(&given, k + 1, count as int);
                    }
                    return Err(fault);
                },
            };
            if self.host_striped {
                match narrow_host_descriptor(
                    &mut write.dst_mr,
                    index,
                    self.workers.len(),
                    domains,
                ) {
                    Ok(_) => {
                        proof {
                            lemma_worker_fits(
                                index as int,
                                self.workers@.len() as int,
                                domains as int,
                            );
                            assert(keys_of(write.dst_mr.addr_rkey_list@).len() == domains);
                            assert(keys_of(write.dst_mr.addr_rkey_list@)[domain as int]
                                == keys_of(item.dst_mr.addr_rkey_list@)[entry]);
                        }
                    },
                    Err(fault) => {
                        proof {
                            self.lemma_writes_fault_stays(&given, k + 1, count as int);
                        }
                        return Err(fault);
                    },
                }
            }
            if write.dst_mr.addr_rkey_list.len() != domains {
                proof {
                    self.lemma_writes_fault_stays(&given, k + 1, count as int);
                }
                return Err(FabricLibError::Custom("write batch domain topology mismatch"));
            }
            assert(write.dst_mr.addr(domain as int) == item.dst_mr.addr(entry));
            let address = write.dst_mr.addr_rkey_list[domain].0.clone();
            if let Some(previous) = &destination {
                if !previous.same_as(&address) {
                    proof {
                        self.lemma_writes_fault_stays(&given, k + 1, count as int);
                    }
                    return Err(
                        FabricLibError::Custom("one write batch cannot target different peers"),
                    );
                }
            }
            destination = Some(address);
            if !range_fits(write.dst_mr.ptr, write.dst_offset, length) {
                proof {
                    self.lemma_writes_fault_stays(&given, k + 1, count as int);
                }
                return Err(FabricLibError::Custom("write batch destination overflow"));
            }
            assert(self.batch_write_fault(&given, k) is None);
            writes.push(write);
        }
        Ok((index, WriteBatchRequest { lane, writes }))
    }

    proof fn lemma_writes_fault_stays(&self, batch: &WriteBatchRequest, from: int, to: int)
        requires
            from <= to,
            self.batch_writes_fault(batch, from) is Some,
        ensures
            self.batch_writes_fault(batch, to) == self.batch_writes_fault(batch, from),
        decreases to - from,
    {
        if from < to {
            self.lemma_writes_fault_stays(batch, from, to - 1);
        }
    }
}

proof fn lemma_sources_fault_stays(
    engine: &FabricEngine,
    segments: Seq<GatherSegment>,
    from: int,
    to: int,
)
    requires
        from <= to,
        sources_fault(engine, segments, from) is Some,
    ensures
        sources_fault(engine, segments, to) == sources_fault(engine, segments, from),
    decreases to - from,
{
    if from < to {
        lemma_sources_fault_stays(engine, segments, from, to - 1);
    }
}

/// Whether a range of memory ends within the addresses.
fn range_fits(ptr: u64, offset: u64, length: u64) -> (fits: bool)
    ensures
        fits == (ptr + offset + length <= u64::MAX),
{
    match ptr.checked_add(offset) {
        Some(start) => start.checked_add(length).is_some(),
        None => false,
    }
}

/// A domain that knows the sources does not find fault with segments that an engine has
/// accepted.
proof fn lemma_segments_accepted<D: RdmaDomain>(
    engine: &FabricEngine,
    domain: &D,
    segments: Seq<GatherSegment>,
    upto: int,
)
    requires
        0 <= upto <= segments.len(),
        sources_fault(engine, segments, upto) is None,
        forall|s: int|
            #![trigger segments[s]]
            0 <= s < segments.len() ==> domain.mem_desc(segments[s].src_mr.ptr) is Ok,
    ensures
        segments_fault(domain, segments, upto) is None,
    decreases upto,
{
    if upto > 0 {
        lemma_segments_accepted(engine, domain, segments, upto - 1);
        lemma_total_length_take(segments, upto - 1);
        assert(domain.mem_desc(segments[upto - 1].src_mr.ptr) is Ok);
    }
}

/// A batch that an engine has prepared is not refused by the group of the worker that it goes
/// to, if the group's domain takes batches and knows the sources.
pub proof fn prepared_batch_is_accepted<D: RdmaDomain, C, A, const N: usize>(
    engine: &FabricEngine,
    given: &WriteBatchRequest,
    prepared: &WriteBatchRequest,
    group: &DomainGroup<D, C, A, N>,
)
    requires
        engine.wf(),
        engine.batch_fault(given) is None,
        engine.batch_prepared(given, prepared),
        N == engine.nets_per_gpu,
        ({
            let domain = group.domains[(prepared.lane / WRITE_QP_LANES) as int];
            &&& domain.batches()
            &&& forall|w: int, s: int|
                #![trigger prepared.writes@[w].segments@[s]]
                0 <= w < prepared.writes@.len() && 0 <= s < prepared.writes@[w].segments@.len()
                    ==> domain.mem_desc(prepared.writes@[w].segments@[s].src_mr.ptr) is Ok
        }),
    ensures
        group.batch_fault(prepared) is None,
{
    engine.lemma_batch_places(given);
    lemma_writes_accepted(engine, given, prepared, group, prepared.writes@.len() as int);
}

proof fn lemma_writes_accepted<D: RdmaDomain, C, A, const N: usize>(
    engine: &FabricEngine,
    given: &WriteBatchRequest,
    prepared: &WriteBatchRequest,
    group: &DomainGroup<D, C, A, N>,
    upto: int,
)
    requires
        engine.wf(),
        engine.batch_fault(given) is None,
        engine.batch_prepared(given, prepared),
        N == engine.nets_per_gpu,
        0 <= upto <= prepared.writes@.len(),
        ({
            let domain = group.domains[(prepared.lane / WRITE_QP_LANES) as int];
            forall|w: int, s: int|
                #![trigger prepared.writes@[w].segments@[s]]
                0 <= w < prepared.writes@.len() && 0 <= s < prepared.writes@[w].segments@.len()
                    ==> domain.mem_desc(prepared.writes@[w].segments@[s].src_mr.ptr) is Ok
        }),
    ensures
        ({
            let d = (prepared.lane / WRITE_QP_LANES) as int;
            writes_fault(&group.domains[d], prepared.writes@, d, N as int, upto) is None
        }),
    decreases upto,
{
    if upto > 0 {
        lemma_writes_accepted(engine, given, prepared, group, upto - 1);
        let d = (prepared.lane / WRITE_QP_LANES) as int;
        let domain = group.domains[d];
        let w = upto - 1;
        let write = prepared.writes@[w];
        engine.lemma_batch_places(given);
        if engine.batch_writes_fault(given, w + 1) is Some {
            engine.lemma_writes_fault_stays(given, w + 1, given.writes@.len() as int);
        }
        assert(engine.batch_write_fault(given, w) is None);
        assert(engine.write_prepared(given, &given.writes@[w], &write));
        assert forall|s: int|
            #![trigger write.segments@[s]]
            0 <= s < write.segments@.len() implies domain.mem_desc(
            write.segments@[s].src_mr.ptr,
        ) is Ok by {
            assert(prepared.writes@[w].segments@[s] == write.segments@[s]);
        }
        lemma_segments_accepted(engine, &domain, write.segments@, write.segments@.len() as int);
        lemma_prepared_entry(engine, given, prepared, w);
        if w > 0 {
            lemma_prepared_entry(engine, given, prepared, w - 1);
        }
    }
}

/// The entry of a prepared descriptor that the batch goes to is that of the lane.
proof fn lemma_prepared_entry(
    engine: &FabricEngine,
    given: &WriteBatchRequest,
    prepared: &WriteBatchRequest,
    w: int,
)
    requires
        engine.wf(),
        engine.batch_fault(given) is None,
        engine.batch_prepared(given, prepared),
        0 <= w < prepared.writes@.len(),
    ensures
        prepared.writes@[w].dst_mr.width() == engine.nets_per_gpu,
        prepared.writes@[w].dst_mr.addr((prepared.lane / WRITE_QP_LANES) as int)
            == given.writes@[w].dst_mr.addr(engine.batch_entry(given)),
{
    let before = given.writes@[w].dst_mr;
    let after = prepared.writes@[w].dst_mr;
    let d = (prepared.lane / WRITE_QP_LANES) as int;
    engine.lemma_batch_places(given);
    assert(engine.write_prepared(given, &given.writes@[w], &prepared.writes@[w]));
    if engine.batch_writes_fault(given, w + 1) is Some {
        engine.lemma_writes_fault_stays(given, w + 1, given.writes@.len() as int);
    }
    assert(engine.batch_write_fault(given, w) is None);
    assert(keys_of(after.addr_rkey_list@).len() == after.width());
    if engine.host_striped {
        lemma_worker_fits(
            engine.batch_worker(given),
            engine.workers@.len() as int,
            engine.nets_per_gpu as int,
        );
    }
    assert(keys_of(after.addr_rkey_list@)[d] == keys_of(
        before.addr_rkey_list@,
    )[engine.batch_entry(given)]);
}

/// Segments are registered host memory, none is empty, and all addresses are addresses.
pub open spec fn sources_sound(engine: FabricEngine, segments: Seq<GatherSegment>) -> bool {
    forall|s: int|
        #![trigger segments[s]]
        0 <= s < segments.len() ==> {
            &&& engine.devices().contains_key(segments[s].src_mr.ptr)
            &&& engine.devices()[segments[s].src_mr.ptr] == Device::Host
            &&& segments[s].length > 0
            &&& segments[s].src_mr.ptr + segments[s].src_offset + segments[s].length
                <= 0xffff_ffff_ffff_ffff
        }
}

proof fn lemma_sources_sound(engine: FabricEngine, segments: Seq<GatherSegment>, upto: int)
    requires
        0 <= upto <= segments.len(),
    ensures
        sources_fault(&engine, segments, upto) is None <==> total_length(segments.take(upto))
            <= 0xffff_ffff && sources_sound(engine, segments.take(upto)),
    decreases upto,
{
    lemma_total_length_nonneg(segments.take(upto));
    if upto > 0 {
        let last = upto - 1;
        lemma_sources_sound(engine, segments, last);
        lemma_total_length_take(segments, last);
        lemma_total_length_nonneg(segments.take(last));
        let (less, more) = (segments.take(last), segments.take(upto));
        assert(more[last] == segments[last]);
        if sources_sound(engine, more) {
            assert forall|s: int| #![trigger less[s]] 0 <= s < less.len() implies {
                &&& engine.devices().contains_key(less[s].src_mr.ptr)
                &&& engine.devices()[less[s].src_mr.ptr] == Device::Host
                &&& less[s].length > 0
                &&& less[s].src_mr.ptr + less[s].src_offset + less[s].length
                    <= 0xffff_ffff_ffff_ffff
            } by {
                assert(more[s] == less[s]);
            }
            assert(sources_sound(engine, less));
        }
        if sources_fault(&engine, segments, upto) is None {
            assert forall|s: int| #![trigger more[s]] 0 <= s < more.len() implies {
                &&& engine.devices().contains_key(more[s].src_mr.ptr)
                &&& engine.devices()[more[s].src_mr.ptr] == Device::Host
                &&& more[s].length > 0
                &&& more[s].src_mr.ptr + more[s].src_offset + more[s].length
                    <= 0xffff_ffff_ffff_ffff
            } by {
                if s < last {
                    assert(less[s] == more[s]);
                }
            }
        }
    } else {
        assert(segments.take(upto) =~= Seq::<GatherSegment>::empty());
    }
}

/// A write of a batch for a worker with `width` entries in its descriptor is sound.
pub open spec fn write_fits(engine: FabricEngine, write: BatchWrite, width: int) -> bool {
    &&& write.segments@.len() > 0 || write.imm_data is Some
    &&& write.segments@.len() <= 16
    &&& sources_sound(engine, write.segments@)
    &&& source_bytes(write.segments@).len() <= 0xffff_ffff
    &&& write.dst_mr.addr_rkey_list@.len() == width
    &&& write.dst_mr.ptr + write.dst_offset + source_bytes(write.segments@).len()
        <= 0xffff_ffff_ffff_ffff
}

/// A batch is prepared exactly if every worker takes batches, it has from one to sixty-four
/// writes and a lane that there is, each of its writes is sound and all go to one peer: all name
/// the same address in the entry of the lane's domain.
pub proof fn batch_is_prepared_if_it_can_be(engine: FabricEngine, batch: WriteBatchRequest)
    requires
        engine.wf(),
        engine.host_striped ==> engine.num_domains == engine.workers@.len() * engine.nets_per_gpu,
    ensures
        ({
            let writes = batch.writes@;
            let domains = if engine.host_striped {
                engine.workers@.len() * engine.nets_per_gpu
            } else {
                engine.nets_per_gpu as int
            };
            let entry = batch.lane as int / 2;
            engine.batch_fault(&batch) is None <==> {
                &&& forall|i: int|
                    #![trigger engine.workers@[i]]
                    0 <= i < engine.workers@.len() ==> engine.workers@[i].1.write_batches
                &&& 1 <= writes.len() <= 64
                &&& batch.lane < domains * 2
                &&& forall|w: int|
                    #![trigger writes[w]]
                    0 <= w < writes.len() ==> write_fits(engine, writes[w], domains)
                        && writes[w].dst_mr.addr_rkey_list@[entry].0@
                        == writes[0].dst_mr.addr_rkey_list@[entry].0@
            }
        }),
{
    let domains = if engine.host_striped {
        engine.workers@.len() * engine.nets_per_gpu
    } else {
        engine.nets_per_gpu as int
    };
    if batch.lane < engine.lane_count() {
        lemma_entry_of_lane(engine, batch);
        lemma_writes_fit(engine, batch, domains, batch.writes@.len() as int);
    }
}

/// The entry of a batch is that of its lane's domain, counted through the workers.
pub proof fn lemma_entry_of_lane(engine: FabricEngine, batch: WriteBatchRequest)
    requires
        engine.wf(),
        engine.host_striped ==> engine.num_domains == engine.workers@.len() * engine.nets_per_gpu,
        batch.lane < engine.lane_count(),
    ensures
        engine.batch_entry(&batch) == batch.lane as int / 2,
        0 <= engine.batch_worker(&batch) < engine.workers@.len(),
        engine.host_striped ==> batch.lane == engine.batch_worker(&batch) * (engine.nets_per_gpu
            * 2) + engine.batch_lane(&batch),
{
    engine.lemma_batch_places(&batch);
    let lane = batch.lane as int;
    let nets = engine.nets_per_gpu as int;
    if engine.host_striped {
        let workers = engine.workers@.len() as int;
        let worker = engine.batch_worker(&batch);
        lemma_fundamental_div_mod(lane, nets * 2);
        assert(lane == worker * (nets * 2) + lane % (nets * 2)) by (nonlinear_arith)
            requires
                lane == (nets * 2) * worker + lane % (nets * 2),
        ;
        assert(worker * (nets * 2) == (worker * nets) * 2) by (nonlinear_arith);
        assert(worker < workers) by (nonlinear_arith)
            requires
                lane == worker * (nets * 2) + lane % (nets * 2),
                0 <= lane % (nets * 2),
                lane < (workers * nets) * 2,
                nets > 0,
        ;
    }
}

proof fn lemma_writes_fit(
    engine: FabricEngine,
    batch: WriteBatchRequest,
    domains: int,
    upto: int,
)
    requires
        engine.wf(),
        0 <= upto <= batch.writes@.len(),
        0 <= engine.batch_worker(&batch) < engine.workers@.len(),
        engine.batch_entry(&batch) == batch.lane as int / 2,
        domains == if engine.host_striped {
            engine.workers@.len() * engine.nets_per_gpu
        } else {
            engine.nets_per_gpu as int
        },
    ensures
        engine.batch_writes_fault(&batch, upto) is None <==> forall|w: int|
            #![trigger batch.writes@[w]]
            0 <= w < upto ==> write_fits(engine, batch.writes@[w], domains)
                && batch.writes@[w].dst_mr.addr_rkey_list@[batch.lane as int / 2].0@
                == batch.writes@[0].dst_mr.addr_rkey_list@[batch.lane as int / 2].0@,
    decreases upto,
{
    if upto > 0 {
        lemma_writes_fit(engine, batch, domains, upto - 1);
        let write = batch.writes@[upto - 1];
        let segments = write.segments@;
        lemma_sources_sound(engine, segments, segments.len() as int);
        assert(segments.take(segments.len() as int) =~= segments);
        lemma_source_bytes_len(segments);
        if upto > 1 {
            let previous = batch.writes@[upto - 2];
            assert(previous == batch.writes@[upto - 2]);
        }
    }
}

/// A batch that is prepared does what was asked: each write reads the same segments and goes to
/// the same offset, with the immediate. Its worker and its lane there are those of the lane that
/// was asked for, counted through the workers, and in a striped engine each descriptor is the
/// part that is about that worker.
pub proof fn prepared_batches_keep_their_errand(
    engine: FabricEngine,
    given: WriteBatchRequest,
    prepared: WriteBatchRequest,
)
    requires
        engine.wf(),
        engine.host_striped ==> engine.num_domains == engine.workers@.len() * engine.nets_per_gpu,
        engine.batch_fault(&given) is None,
        engine.batch_prepared(&given, &prepared),
    ensures
        ({
            let worker = engine.batch_worker(&given);
            let lanes = engine.nets_per_gpu * 2;
            &&& same_errand(
                TransferRequest::WriteBatch(given),
                TransferRequest::WriteBatch(prepared),
            )
            &&& 0 <= worker < engine.workers@.len()
            &&& prepared.lane < lanes
            &&& if engine.host_striped {
                given.lane == worker * lanes + prepared.lane
            } else {
                worker == 0 && given.lane == prepared.lane
            }
            &&& forall|w: int|
                #![trigger prepared.writes@[w]]
                0 <= w < prepared.writes@.len() ==> if engine.host_striped {
                    is_part_of(
                        prepared.writes@[w].dst_mr,
                        given.writes@[w].dst_mr,
                        worker,
                        engine.workers@.len() as int,
                        engine.nets_per_gpu as int,
                    )
                } else {
                    prepared.writes@[w].dst_mr@ == given.writes@[w].dst_mr@
                }
        }),
{
    let worker = engine.batch_worker(&given);
    engine.lemma_batch_places(&given);
    lemma_entry_of_lane(engine, given);
    assert forall|w: int|
        #![trigger prepared.writes@[w]]
        0 <= w < prepared.writes@.len() implies if engine.host_striped {
        is_part_of(
            prepared.writes@[w].dst_mr,
            given.writes@[w].dst_mr,
            worker,
            engine.workers@.len() as int,
            engine.nets_per_gpu as int,
        )
    } else {
        prepared.writes@[w].dst_mr@ == given.writes@[w].dst_mr@
    } by {
        assert(engine.write_prepared(&given, &given.writes@[w], &prepared.writes@[w]));
        if engine.batch_writes_fault(&given, w + 1) is Some {
            engine.lemma_writes_fault_stays(&given, w + 1, given.writes@.len() as int);
        }
        assert(engine.batch_write_fault(&given, w) is None);
        if engine.host_striped {
            lemma_narrowed_is_part(
                prepared.writes@[w].dst_mr,
                given.writes@[w].dst_mr,
                worker,
                engine.workers@.len() as int,
                engine.nets_per_gpu as int,
            );
        }
    }
}

} // verus!
