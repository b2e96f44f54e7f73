//! What routing keeps of a transfer, and where it goes.
use vstd::arithmetic::div_mod::lemma_fundamental_div_mod;
use vstd::prelude::*;

use crate::api::{
    BatchWrite, GatherSegment, MemoryRegionDescriptor, MemoryRegionHandle, TransferId,
    TransferRequest, WriteBatchRequest, keys_of,
};
use crate::cuda_compat::{CudaDeviceId, Device};
use crate::error::FabricLibError;
use crate::fabric_engine::FabricEngine;
use crate::fabric_engine::lanes::{
    lemma_worker_fits, narrowable, narrowed, request_narrowable, request_outcome,
    target_descriptors,
};
use crate::fabric_engine::submit::{
    host_segments_fault, host_writes_fault, one_device_fault, submitted_request,
};
use crate::worker::WorkerCommand;

verus! {

/// A descriptor is what `whole`, a descriptor of `workers` workers with `domains` domains each,
/// says of the domains of `worker`, entry by entry.
pub open spec fn is_part_of(
    part: MemoryRegionDescriptor,
    whole: MemoryRegionDescriptor,
    worker: int,
    workers: int,
    domains: int,
) -> bool {
    &&& part.ptr == whole.ptr
    &&& whole.addr_rkey_list@.len() == workers * domains
    &&& part.addr_rkey_list@.len() == domains
    &&& forall|d: int|
        #![trigger part.addr_rkey_list@[d]]
        0 <= d < domains ==> {
            let entry = whole.addr_rkey_list@[worker * domains + d];
            part.addr_rkey_list@[d].0@ == entry.0@ && part.addr_rkey_list@[d].1 == entry.1
        }
}

/// The descriptors that a transfer names, in order.
pub open spec fn descriptors_of(request: TransferRequest) -> Seq<MemoryRegionDescriptor> {
    match request {
        TransferRequest::Imm(request) => seq![request.dst_mr],
        TransferRequest::Barrier(request) => request.dst_mrs@,
        TransferRequest::Single(request) => seq![request.dst_mr],
        TransferRequest::Gather(request) => seq![request.dst_mr],
        TransferRequest::Paged(request) => seq![request.dst_mr],
        TransferRequest::Scatter(request) => Seq::new(
            request.dsts@.len(),
            |t: int| request.dsts@[t].dst_mr,
        ),
        TransferRequest::WriteBatch(request) => Seq::new(
            request.writes@.len(),
            |w: int| request.writes@[w].dst_mr,
        ),
    }
}

/// Two transfers do the same, but for their descriptors and the lane of a batch.
pub open spec fn same_errand(a: TransferRequest, b: TransferRequest) -> bool {
    match (a, b) {
        (TransferRequest::Imm(a), TransferRequest::Imm(b)) => (a.imm_data, a.domain) == (
            b.imm_data,
            b.domain,
        ),
        (TransferRequest::Barrier(a), TransferRequest::Barrier(b)) => (a.imm_data, a.domain) == (
            b.imm_data,
            b.domain,
        ),
        (TransferRequest::Single(a), TransferRequest::Single(b)) => (
            a.src_mr,
            a.src_offset,
            a.length,
            a.imm_data,
            a.dst_offset,
            a.domain,
        ) == (b.src_mr, b.src_offset, b.length, b.imm_data, b.dst_offset, b.domain),
        (TransferRequest::Gather(a), TransferRequest::Gather(b)) => (
            a.segments@,
            a.imm_data,
            a.dst_offset,
            a.domain,
        ) == (b.segments@, b.imm_data, b.dst_offset, b.domain),
        (TransferRequest::Paged(a), TransferRequest::Paged(b)) => {
            &&& a.src_page_indices@ == b.src_page_indices@
            &&& a.dst_page_indices@ == b.dst_page_indices@
            &&& (a.length, a.src_mr, a.src_stride, a.src_offset) == (
                b.length,
                b.src_mr,
                b.src_stride,
                b.src_offset,
            )
            &&& (a.dst_stride, a.dst_offset, a.imm_data) == (b.dst_stride, b.dst_offset, b.imm_data)
        },
        (TransferRequest::Scatter(a), TransferRequest::Scatter(b)) => {
            &&& (a.src_mr, a.imm_data, a.dst_handle, a.domain) == (
                b.src_mr,
                b.imm_data,
                b.dst_handle,
                b.domain,
            )
            &&& a.dsts@.len() == b.dsts@.len()
            &&& forall|t: int|
                #![trigger b.dsts@[t]]
                0 <= t < b.dsts@.len() ==> a.dsts@[t].length == b.dsts@[t].length
                    && a.dsts@[t].src_offset == b.dsts@[t].src_offset && a.dsts@[t].dst_offset
                    == b.dsts@[t].dst_offset
        },
        (TransferRequest::WriteBatch(a), TransferRequest::WriteBatch(b)) => {
            &&& a.writes@.len() == b.writes@.len()
            &&& forall|w: int|
                #![trigger b.writes@[w]]
                0 <= w < b.writes@.len() ==> a.writes@[w].segments@ == b.writes@[w].segments@
                    && a.writes@[w].imm_data == b.writes@[w].imm_data && a.writes@[w].dst_offset
                    == b.writes@[w].dst_offset
        },
        _ => false,
    }
}

/// The regions that a transfer reads, but for those of batches.
pub open spec fn sources_of(request: TransferRequest) -> Seq<MemoryRegionHandle> {
    match request {
        TransferRequest::Single(request) => seq![request.src_mr],
        TransferRequest::Paged(request) => seq![request.src_mr],
        TransferRequest::Scatter(request) => seq![request.src_mr],
        TransferRequest::Gather(request) => Seq::new(
            request.segments@.len(),
            |s: int| request.segments@[s].src_mr,
        ),
        _ => Seq::empty(),
    }
}

/// A descriptor that is narrowed to a worker is the part that is about that worker.
pub proof fn lemma_narrowed_is_part(
    part: MemoryRegionDescriptor,
    whole: MemoryRegionDescriptor,
    worker: int,
    workers: int,
    domains: int,
)
    requires
        0 <= worker,
        narrowable(whole.width(), worker, workers, domains),
        part@ == narrowed(whole@, worker, domains),
    ensures
        is_part_of(part, whole, worker, workers, domains),
{
    lemma_worker_fits(worker, workers, domains);
    let all = keys_of(whole.addr_rkey_list@);
    let own = keys_of(part.addr_rkey_list@);
    assert(own == all.subrange(worker * domains, worker * domains + domains));
    assert(own.len() == domains);
    assert forall|d: int| #![trigger part.addr_rkey_list@[d]] 0 <= d < domains implies {
        let entry = whole.addr_rkey_list@[worker * domains + d];
        part.addr_rkey_list@[d].0@ == entry.0@ && part.addr_rkey_list@[d].1 == entry.1
    } by {
        assert(own[d] == all[worker * domains + d]);
    }
}

/// A transfer that is routed is the one that was submitted: its command has the id, the counter
/// and no resources yet, and does what was asked. A worker of a striped engine sees the part of
/// each descriptor that is about its own domains; any other worker sees the descriptors as they
/// are.
pub proof fn routed_transfers_keep_their_errand<C, A>(
    before: FabricEngine,
    after: FabricEngine,
    id: TransferId,
    request: TransferRequest,
    counter: Option<C>,
    index: usize,
    command: WorkerCommand<C, A>,
)
    requires
        before.wf(),
        before.transfer_outcome(
            &after,
            id,
            &request,
            counter,
            Ok::<(usize, WorkerCommand<C, A>), FabricLibError>((index, command)),
        ),
    ensures
        index < before.workers@.len(),
        after.workers == before.workers,
        after.devices() == before.devices(),
        after.host_striped == before.host_striped,
        after.nets_per_gpu == before.nets_per_gpu,
        command matches WorkerCommand::SubmitTransfer {
            transfer_id,
            request: sent,
            tx_counter,
            admission,
        } && {
            let (a, b) = (descriptors_of(request), descriptors_of(sent));
            &&& transfer_id == id
            &&& tx_counter == counter
            &&& admission is None
            &&& same_errand(request, sent)
            &&& b.len() == a.len()
            &&& forall|j: int|
                #![trigger b[j]]
                0 <= j < b.len() ==> b[j]@ == a[j]@ || is_part_of(
                    b[j],
                    a[j],
                    index as int,
                    before.workers@.len() as int,
                    before.nets_per_gpu as int,
                )
            &&& before.host_striped && (request is WriteBatch || forall|s: int|
                #![trigger sources_of(request)[s]]
                0 <= s < sources_of(request).len() ==> before.devices()[sources_of(request)[s].ptr]
                    == Device::Host) ==> forall|j: int|
                #![trigger b[j]]
                0 <= j < b.len() ==> is_part_of(
                    b[j],
                    a[j],
                    index as int,
                    before.workers@.len() as int,
                    before.nets_per_gpu as int,
                )
        },
{
    let routed = Ok::<(usize, WorkerCommand<C, A>), FabricLibError>((index, command));
    let worker = index as int;
    let workers = before.workers@.len() as int;
    let domains = before.nets_per_gpu as int;
    let sent = submitted_request(command);
    let (a, b) = (descriptors_of(request), descriptors_of(sent));
    match request {
        TransferRequest::WriteBatch(batch) => {
            assert(before.lane_batch_outcome(id, &batch, counter, routed));
            let sent_batch = sent->WriteBatch_0;
            assert(before.lane_batch_routed(&batch, index, &sent_batch));
            if before.host_striped {
                lemma_lane_worker(before.striped_lane(&batch), workers, domains);
                assert forall|j: int| #![trigger b[j]] 0 <= j < b.len() implies is_part_of(
                    b[j],
                    a[j],
                    worker,
                    workers,
                    domains,
                ) by {
                    assert(batch.writes@[j].dst_mr == a[j]);
                    assert(sent_batch.writes@[j].dst_mr == b[j]);
                    lemma_narrowed_is_part(b[j], a[j], worker, workers, domains);
                }
            }
        },
        _ => {
            let source = before.source_device(&request)->Ok_0;
            lemma_source_device(before, request);
            if before.stripes_source(source) {
                assert(before.striped_outcome(id, &request, source, counter, routed));
                assert(request_narrowable(&request, worker, workers, domains));
                assert(request_outcome(&request, &sent, worker, workers, domains, Ok(())));
                lemma_request_is_part(request, sent, worker, workers, domains);
            } else {
                assert(before.served_outcome(id, &request, source, counter, routed));
                assert(sent == request);
                if before.host_striped {
                    assert(source is Some);
                    assert(sources_of(request)[0] == sources_of(request)[0]);
                }
            }
        },
    }
}

proof fn lemma_request_is_part(
    request: TransferRequest,
    sent: TransferRequest,
    worker: int,
    workers: int,
    domains: int,
)
    requires
        0 <= worker,
        request_narrowable(&request, worker, workers, domains),
        request_outcome(&request, &sent, worker, workers, domains, Ok(())),
    ensures
        same_errand(request, sent),
        descriptors_of(sent).len() == descriptors_of(request).len(),
        forall|j: int|
            #![trigger descriptors_of(sent)[j]]
            0 <= j < descriptors_of(sent).len() ==> is_part_of(
                descriptors_of(sent)[j],
                descriptors_of(request)[j],
                worker,
                workers,
                domains,
            ),
{
    let (a, b) = (descriptors_of(request), descriptors_of(sent));
    match (request, sent) {
        (TransferRequest::Scatter(asked), TransferRequest::Scatter(given)) => {
            assert(a =~= target_descriptors(asked.dsts@));
            assert(b =~= target_descriptors(given.dsts@));
        },
        _ => {},
    }
    assert forall|j: int| #![trigger b[j]] 0 <= j < b.len() implies is_part_of(
        b[j],
        a[j],
        worker,
        workers,
        domains,
    ) by {
        assert(a[j] == a[j]);
        lemma_narrowed_is_part(b[j], a[j], worker, workers, domains);
    }
}

proof fn lemma_lane_worker(lane: int, workers: int, domains: int)
    requires
        0 <= lane < workers * domains,
        0 < domains,
    ensures
        0 <= lane / domains < workers,
        0 <= lane % domains < domains,
        lane == (lane / domains) * domains + lane % domains,
{
    lemma_fundamental_div_mod(lane, domains);
    let worker = lane / domains;
    assert(worker * domains == domains * worker) by (nonlinear_arith);
    assert(worker < workers) by (nonlinear_arith)
        requires
            lane == worker * domains + lane % domains,
            0 <= lane % domains,
            0 < domains,
            lane < workers * domains,
    ;
    assert(0 <= worker) by (nonlinear_arith)
        requires
            lane == worker * domains + lane % domains,
            lane % domains < domains,
            0 < domains,
            0 <= lane,
    ;
}

/// Regions are registered, and all on the device of the first.
pub open spec fn on_one_device(engine: FabricEngine, sources: Seq<MemoryRegionHandle>) -> bool {
    forall|s: int|
        #![trigger sources[s]]
        0 <= s < sources.len() ==> engine.devices().contains_key(sources[s].ptr)
            && engine.devices()[sources[s].ptr] == engine.devices()[sources[0].ptr]
}

proof fn lemma_one_device(
    engine: FabricEngine,
    segments: Seq<GatherSegment>,
    device: Device,
    upto: int,
)
    requires
        1 <= upto <= segments.len(),
    ensures
        one_device_fault(&engine, segments, device, upto) is None <==> forall|s: int|
            #![trigger segments[s]]
            1 <= s < upto ==> engine.devices().contains_key(segments[s].src_mr.ptr)
                && engine.devices()[segments[s].src_mr.ptr] == device,
    decreases upto,
{
    if upto > 1 {
        lemma_one_device(engine, segments, device, upto - 1);
    }
}

proof fn lemma_source_device(engine: FabricEngine, request: TransferRequest)
    requires
        !(request is WriteBatch),
    ensures
        ({
            let sources = sources_of(request);
            &&& engine.source_device(&request) is Ok <==> {
                &&& request is Gather ==> sources.len() > 0
                &&& on_one_device(engine, sources)
            }
            &&& engine.source_device(&request) matches Ok(source) ==> match source {
                Some(device) => sources.len() > 0 && device == engine.devices()[sources[0].ptr],
                None => sources.len() == 0,
            }
        }),
{
    let sources = sources_of(request);
    match request {
        TransferRequest::Gather(gather) => {
            let segments = gather.segments@;
            if segments.len() > 0 {
                let device = engine.devices()[segments[0].src_mr.ptr];
                lemma_one_device(engine, segments, device, segments.len() as int);
                assert(sources[0] == segments[0].src_mr);
                if engine.source_device(&request) is Ok {
                    assert forall|s: int|
                        #![trigger sources[s]]
                        0 <= s < sources.len() implies engine.devices().contains_key(sources[s].ptr)
                        && engine.devices()[sources[s].ptr] == engine.devices()[sources[0].ptr] by {
                        assert(segments[s].src_mr == sources[s]);
                    }
                }
                if on_one_device(engine, sources) {
                    assert forall|s: int| #![trigger segments[s]] 1 <= s < segments.len() implies {
                        &&& engine.devices().contains_key(segments[s].src_mr.ptr)
                        &&& engine.devices()[segments[s].src_mr.ptr] == device
                    } by {
                        assert(sources[s] == segments[s].src_mr);
                    }
                }
            }
        },
        TransferRequest::Single(_) => {
            assert(sources[0] == sources[0]);
        },
        TransferRequest::Paged(_) => {
            assert(sources[0] == sources[0]);
        },
        TransferRequest::Scatter(_) => {
            assert(sources[0] == sources[0]);
        },
        _ => {},
    }
}

/// A transfer, other than a batch, is routed exactly if all that it reads is registered and on
/// one device, and there is a worker for it: for a device, that of the device; for host memory
/// or without a source, the first, or, in a striped engine, any, if its descriptors cover all
/// domains of all workers. Then it goes to that worker; in a striped engine transfers from host
/// memory take turns, which nothing else does.
pub proof fn transfers_go_where_their_memory_is<C, A>(
    before: FabricEngine,
    after: FabricEngine,
    id: TransferId,
    request: TransferRequest,
    counter: Option<C>,
    routed: Result<(usize, WorkerCommand<C, A>), FabricLibError>,
)
    requires
        before.wf(),
        before.transfer_outcome(&after, id, &request, counter, routed),
        !(request is WriteBatch),
    ensures
        ({
            let sources = sources_of(request);
            let sound = (request is Gather ==> sources.len() > 0) && on_one_device(before, sources);
            let of_host = sources.len() == 0 || before.devices()[sources[0].ptr] == Device::Host;
            let workers = before.workers@.len() as int;
            if !sound {
                &&& routed is Err
                &&& after.host_submit_rr == before.host_submit_rr
            } else if of_host && before.host_striped {
                let whole = forall|j: int|
                    #![trigger descriptors_of(request)[j]]
                    0 <= j < descriptors_of(request).len()
                        ==> descriptors_of(request)[j].addr_rkey_list@.len() == workers
                        * before.nets_per_gpu;
                &&& routed is Ok <==> whole
                &&& routed matches Ok((index, _)) ==> index == if sources.len() > 0 {
                    before.host_submit_rr as int % workers
                } else {
                    0
                }
                &&& after.host_submit_rr == if sources.len() == 0 {
                    before.host_submit_rr as int
                } else if before.host_submit_rr == usize::MAX {
                    0
                } else {
                    before.host_submit_rr + 1
                }
            } else {
                &&& after.host_submit_rr == before.host_submit_rr
                &&& if of_host {
                    routed matches Ok((index, _)) && index == 0
                } else {
                    before.devices()[sources[0].ptr] matches Device::Cuda(CudaDeviceId(number))
                        && match routed {
                        Ok((index, _)) => index < workers && before.workers@[index as int].0
                            == number,
                        Err(_) => forall|w: int|
                            #![trigger before.workers@[w]]
                            0 <= w < workers ==> before.workers@[w].0 != number,
                    }
                }
            }
        }),
{
    let sources = sources_of(request);
    let workers = before.workers@.len() as int;
    let domains = before.nets_per_gpu as int;
    lemma_source_device(before, request);
    if let Ok(source) = before.source_device(&request) {
        if before.stripes_source(source) {
            assert(before.striped_outcome(id, &request, source, counter, routed));
            let worker = before.striped_worker(source);
            assert(0 <= worker < workers);
            let list = descriptors_of(request);
            if let TransferRequest::Scatter(scatter) = request {
                assert(list =~= target_descriptors(scatter.dsts@));
            }
            assert(request_narrowable(&request, worker, workers, domains) <==> forall|j: int|
                #![trigger list[j]]
                0 <= j < list.len() ==> list[j].addr_rkey_list@.len() == workers * domains) by {
                lemma_narrowable_list(request, worker, workers, domains);
            }
        } else {
            assert(before.served_outcome(id, &request, source, counter, routed));
        }
    }
}

proof fn lemma_narrowable_list(request: TransferRequest, worker: int, workers: int, domains: int)
    requires
        !(request is WriteBatch),
        0 <= worker < workers,
        0 < domains,
    ensures
        request_narrowable(&request, worker, workers, domains) <==> forall|j: int|
            #![trigger descriptors_of(request)[j]]
            0 <= j < descriptors_of(request).len()
                ==> descriptors_of(request)[j].addr_rkey_list@.len() == workers * domains,
{
    let list = descriptors_of(request);
    match request {
        TransferRequest::Imm(request) => {
            assert(list[0] == request.dst_mr);
        },
        TransferRequest::Single(request) => {
            assert(list[0] == request.dst_mr);
        },
        TransferRequest::Gather(request) => {
            assert(list[0] == request.dst_mr);
        },
        TransferRequest::Paged(request) => {
            assert(list[0] == request.dst_mr);
        },
        TransferRequest::Scatter(request) => {
            assert(list =~= target_descriptors(request.dsts@));
        },
        _ => {},
    }
}

/// Everything that a batch reads is registered host memory.
pub open spec fn reads_host_memory(engine: FabricEngine, batch: WriteBatchRequest) -> bool {
    forall|w: int, s: int|
        #![trigger batch.writes@[w].segments@[s]]
        0 <= w < batch.writes@.len() && 0 <= s < batch.writes@[w].segments@.len() ==> {
            let ptr = batch.writes@[w].segments@[s].src_mr.ptr;
            engine.devices().contains_key(ptr) && engine.devices()[ptr] == Device::Host
        }
}

proof fn lemma_host_segments(engine: FabricEngine, segments: Seq<GatherSegment>, upto: int)
    requires
        0 <= upto <= segments.len(),
    ensures
        host_segments_fault(&engine, segments, upto) is None <==> forall|s: int|
            #![trigger segments[s]]
            0 <= s < upto ==> engine.devices().contains_key(segments[s].src_mr.ptr)
                && engine.devices()[segments[s].src_mr.ptr] == Device::Host,
    decreases upto,
{
    if upto > 0 {
        lemma_host_segments(engine, segments, upto - 1);
    }
}

proof fn lemma_host_writes(engine: FabricEngine, writes: Seq<BatchWrite>, upto: int)
    requires
        0 <= upto <= writes.len(),
    ensures
        host_writes_fault(&engine, writes, upto) is None <==> forall|w: int, s: int|
            #![trigger writes[w].segments@[s]]
            0 <= w < upto && 0 <= s < writes[w].segments@.len() ==> {
                let ptr = writes[w].segments@[s].src_mr.ptr;
                engine.devices().contains_key(ptr) && engine.devices()[ptr] == Device::Host
            },
    decreases upto,
{
    if upto > 0 {
        lemma_host_writes(engine, writes, upto - 1);
        let last = writes[upto - 1].segments@;
        lemma_host_segments(engine, last, last.len() as int);
        if host_writes_fault(&engine, writes, upto) is None {
            assert forall|w: int, s: int|
                #![trigger writes[w].segments@[s]]
                0 <= w < upto && 0 <= s < writes[w].segments@.len() implies {
                let ptr = writes[w].segments@[s].src_mr.ptr;
                engine.devices().contains_key(ptr) && engine.devices()[ptr] == Device::Host
            } by {
                if w == upto - 1 {
                    assert(last[s] == writes[w].segments@[s]);
                }
            }
        }
        if forall|w: int, s: int|
            #![trigger writes[w].segments@[s]]
            0 <= w < upto && 0 <= s < writes[w].segments@.len() ==> {
                let ptr = writes[w].segments@[s].src_mr.ptr;
                engine.devices().contains_key(ptr) && engine.devices()[ptr] == Device::Host
            } {
            assert forall|s: int| #![trigger last[s]] 0 <= s < last.len() implies {
                &&& engine.devices().contains_key(last[s].src_mr.ptr)
                &&& engine.devices()[last[s].src_mr.ptr] == Device::Host
            } by {
                assert(writes[upto - 1].segments@[s] == last[s]);
            }
        }
    }
}

/// A batch is routed exactly if it has from one to sixty-four writes that read host memory and,
/// in a striped engine, its lane is one of all workers' and its descriptors cover all domains of
/// all workers. Lanes are counted through the workers: the lane that a worker is given comes
/// after all lanes of the workers before it. No batch takes a turn.
pub proof fn batches_go_to_their_lane<C, A>(
    before: FabricEngine,
    after: FabricEngine,
    id: TransferId,
    batch: WriteBatchRequest,
    counter: Option<C>,
    routed: Result<(usize, WorkerCommand<C, A>), FabricLibError>,
)
    requires
        before.wf(),
        before.workers@.len() * before.nets_per_gpu <= usize::MAX,
        before.transfer_outcome(
            &after,
            id,
            &TransferRequest::WriteBatch(batch),
            counter,
            routed,
        ),
    ensures
        after.host_submit_rr == before.host_submit_rr,
        ({
            let lanes = before.nets_per_gpu * 2;
            let workers = before.workers@.len() as int;
            &&& routed is Ok <==> {
                &&& 1 <= batch.writes@.len() <= 64
                &&& reads_host_memory(before, batch)
                &&& before.host_striped ==> batch.lane < workers * lanes && forall|w: int|
                    #![trigger batch.writes@[w]]
                    0 <= w < batch.writes@.len()
                        ==> batch.writes@[w].dst_mr.addr_rkey_list@.len() == workers
                        * before.nets_per_gpu
            }
            &&& routed matches Ok((index, command)) ==> {
                &&& command matches WorkerCommand::SubmitTransfer {
                    request: TransferRequest::WriteBatch(sent),
                    ..
                } && if before.host_striped {
                    index < workers && sent.lane < lanes && index * lanes + sent.lane == batch.lane
                } else {
                    index == 0 && sent.lane == batch.lane
                }
            }
        }),
{
    let workers = before.workers@.len() as int;
    let domains = before.nets_per_gpu as int;
    let lane = before.striped_lane(&batch);
    assert(before.lane_batch_outcome(id, &batch, counter, routed));
    lemma_host_writes(before, batch.writes@, batch.writes@.len() as int);
    assert(workers * (domains * 2) == (workers * domains) * 2) by (nonlinear_arith);
    assert(workers * before.nets_per_gpu == workers * domains);
    assert(lane < workers * domains <==> batch.lane < workers * (domains * 2));
    if before.host_striped && lane < workers * domains {
        lemma_lane_worker(lane, workers, domains);
        let worker = lane / domains;
        assert(worker * (domains * 2) == (worker * domains) * 2) by (nonlinear_arith);
        assert(before.writes_narrowable(batch.writes@, worker) <==> forall|w: int|
            #![trigger batch.writes@[w]]
            0 <= w < batch.writes@.len() ==> batch.writes@[w].dst_mr.addr_rkey_list@.len()
                == workers * domains);
        if let Ok((index, command)) = routed {
            let sent = submitted_request(command)->WriteBatch_0;
            assert(before.lane_batch_routed(&batch, index, &sent));
            assert(index * (before.nets_per_gpu * 2) == worker * (domains * 2));
        }
    }
}

} // verus!
