//! Which worker carries an operation, and what it is told.
use vstd::arithmetic::div_mod::{
    lemma_add_mod_noop, lemma_div_denominator, lemma_mod_add_multiples_vanish,
    lemma_mod_breakdown, lemma_mod_twice, lemma_small_mod,
};
use vstd::prelude::*;

use crate::api::{
    BatchWrite, DomainAddress, GatherSegment, MAX_WRITE_BATCH_WR, MemoryRegionHandle,
    TransferCompletionEntry, TransferId, TransferRequest, WRITE_QP_LANES, WriteBatchRequest,
};
use crate::cuda_compat::Device;
use crate::domain_group::paged::lemma_round_robin_distinct;
use crate::domain_group::wrap_add;
use crate::error::FabricLibError;
use crate::fabric_engine::FabricEngine;
use crate::fabric_engine::lanes::{
    host_write_lane, lane_exists, narrow_host_descriptor, narrow_host_transfer_request, narrowable,
    narrowed, request_narrowable, request_outcome, topology_error,
};
use crate::worker::WorkerCommand;

verus! {

/// The first segments, up to `upto`, that do not lie in host memory.
pub open spec fn host_segments_fault(
    engine: &FabricEngine,
    segments: Seq<GatherSegment>,
    upto: int,
) -> Option<FabricLibError>
    decreases upto,
{
    if upto <= 0 {
        None
    } else if host_segments_fault(engine, segments, upto - 1) is Some {
        host_segments_fault(engine, segments, upto - 1)
    } else {
        match engine.device_of(segments[upto - 1].src_mr) {
            Err(error) => Some(error),
            Ok(device) => if device != Device::Host {
                Some(FabricLibError::Custom("write batches currently require host memory"))
            } else {
                None
            },
        }
    }
}

/// The first writes, up to `upto`, whose sources do not lie in host memory.
pub open spec fn host_writes_fault(
    engine: &FabricEngine,
    writes: Seq<BatchWrite>,
    upto: int,
) -> Option<FabricLibError>
    decreases upto,
{
    if upto <= 0 {
        None
    } else if host_writes_fault(engine, writes, upto - 1) is Some {
        host_writes_fault(engine, writes, upto - 1)
    } else {
        let segments = writes[upto - 1].segments@;
        host_segments_fault(engine, segments, segments.len() as int)
    }
}

/// What the first `upto` segments of a gathered write have wrong, `device` being that of the
/// first.
pub open spec fn one_device_fault(
    engine: &FabricEngine,
    segments: Seq<GatherSegment>,
    device: Device,
    upto: int,
) -> Option<FabricLibError>
    decreases upto,
{
    if upto <= 1 {
        None
    } else if one_device_fault(engine, segments, device, upto - 1) is Some {
        one_device_fault(engine, segments, device, upto - 1)
    } else {
        match engine.device_of(segments[upto - 1].src_mr) {
            Err(error) => Some(error),
            Ok(other) => if other != device {
                Some(
                    FabricLibError::Custom(
                        "GatherTransferRequest segments must belong to one device",
                    ),
                )
            } else {
                None
            },
        }
    }
}

/// The request that a command submits.
pub open spec fn submitted_request<C, A>(command: WorkerCommand<C, A>) -> TransferRequest {
    match command {
        WorkerCommand::SubmitTransfer { request, .. } => request,
        _ => arbitrary(),
    }
}

/// A device that a request names, or none, as a result.
pub open spec fn named_device(device: Result<Device, FabricLibError>) -> Result<
    Option<Device>,
    FabricLibError,
> {
    match device {
        Ok(device) => Ok(Some(device)),
        Err(error) => Err(error),
    }
}

/// The device whose worker carries a request without stripes; one without a source is carried
/// like one from host memory.
pub open spec fn serving_device(source: Option<Device>) -> Device {
    match source {
        Some(device) => device,
        None => Device::Host,
    }
}

impl FabricEngine {
    /// The device that holds the source of a request; immediates have none.
    pub open spec fn source_device(&self, request: &TransferRequest) -> Result<
        Option<Device>,
        FabricLibError,
    > {
        match request {
            TransferRequest::Single(request) => named_device(self.device_of(request.src_mr)),
            TransferRequest::Paged(request) => named_device(self.device_of(request.src_mr)),
            TransferRequest::Scatter(request) => named_device(self.device_of(request.src_mr)),
            TransferRequest::Gather(request) => {
                let segments = request.segments@;
                if segments.len() == 0 {
                    Err(
                        FabricLibError::Custom(
                            "GatherTransferRequest must contain at least one segment",
                        ),
                    )
                } else {
                    match self.device_of(segments[0].src_mr) {
                        Err(error) => Err(error),
                        Ok(device) => match one_device_fault(
                            self,
                            segments,
                            device,
                            segments.len() as int,
                        ) {
                            Some(fault) => Err(fault),
                            None => Ok(Some(device)),
                        },
                    }
                }
            },
            _ => Ok(None),
        }
    }

    fn find_source_device(&self, request: &TransferRequest) -> (device: Result<
        Option<Device>,
        FabricLibError,
    >)
        ensures
            device == self.source_device(request),
    {
        let src_mr = match request {
            TransferRequest::Single(request) => request.src_mr,
            TransferRequest::Paged(request) => request.src_mr,
            TransferRequest::Scatter(request) => request.src_mr,
            TransferRequest::Gather(request) => {
                if request.segments.len() == 0 {
                    return Err(
                        FabricLibError::Custom(
                            "GatherTransferRequest must contain at least one segment",
                        ),
                    );
                }
                return self.find_gather_device(&request.segments);
            },
            _ => {
                return Ok(None);
            },
        };
        match self.device_for_mr(src_mr) {
            Ok(device) => Ok(Some(device)),
            Err(error) => Err(error),
        }
    }

    fn find_gather_device(&self, segments: &Vec<GatherSegment>) -> (found: Result<
        Option<Device>,
        FabricLibError,
    >)
        requires
            segments@.len() > 0,
        ensures
            found == match self.device_of(segments@[0].src_mr) {
                Err(error) => Err::<Option<Device>, FabricLibError>(error),
                Ok(device) => match one_device_fault(
                    self,
                    segments@,
                    device,
                    segments@.len() as int,
                ) {
                    Some(fault) => Err(fault),
                    None => Ok(Some(device)),
                },
            },
    {
        let device = match self.device_for_mr(segments[0].src_mr) {
            Ok(device) => device,
            Err(error) => {
                return Err(error);
            },
        };
        let mut s: usize = 1;
        while s < segments.len()
            invariant
                1 <= s <= segments@.len(),
                self.device_of(segments@[0].src_mr) == Ok::<Device, FabricLibError>(device),
                one_device_fault(self, segments@, device, s as int) is None,
            decreases segments@.len() - s,
        {
            let fault = match self.device_for_mr(segments[s].src_mr) {
                Err(error) => Some(error),
                Ok(other) => {
                    if other != device {
                        Some(
                            FabricLibError::Custom(
                                "GatherTransferRequest segments must belong to one device",
                            ),
                        )
                    } else {
                        None
                    }
                },
            };
            assert(fault == one_device_fault(self, segments@, device, s + 1));
            if let Some(fault) = fault {
                proof {
                    lemma_one_device_stays(
                        self,
                        segments@,
                        device,
                        s + 1,
                        segments@.len() as int,
                    );
                }
                return Err(fault);
            }
            s = s + 1;
        }
        Ok(Some(device))
    }

    /// The writes of a batch for a striped worker, their descriptors narrowed.
    pub open spec fn writes_narrowed(
        &self,
        before: Seq<BatchWrite>,
        after: Seq<BatchWrite>,
        worker: int,
    ) -> bool {
        &&& after.len() == before.len()
        &&& forall|w: int|
            #![trigger after[w]]
            0 <= w < after.len() ==> after[w].segments == before[w].segments && after[w].imm_data
                == before[w].imm_data && after[w].dst_offset == before[w].dst_offset
                && after[w].dst_mr@ == narrowed(
                before[w].dst_mr@,
                worker,
                self.nets_per_gpu as int,
            )
    }

    /// All descriptors of a batch cover the whole engine.
    pub open spec fn writes_narrowable(&self, writes: Seq<BatchWrite>, worker: int) -> bool {
        forall|w: int|
            #![trigger writes[w]]
            0 <= w < writes.len() ==> narrowable(
                writes[w].dst_mr.width(),
                worker,
                self.workers@.len() as int,
                self.nets_per_gpu as int,
            )
    }

    /// The lane of a batch, counted in domains.
    pub open spec fn striped_lane(&self, batch: &WriteBatchRequest) -> int {
        batch.lane as int / (WRITE_QP_LANES as int)
    }

    /// Why a batch is not handed to a worker.
    pub open spec fn lane_batch_fault(&self, batch: &WriteBatchRequest) -> Option<FabricLibError> {
        let domains = self.nets_per_gpu as int;
        if batch.writes@.len() == 0 || batch.writes@.len() > MAX_WRITE_BATCH_WR {
            Some(FabricLibError::Custom("invalid write batch length"))
        } else if host_writes_fault(self, batch.writes@, batch.writes@.len() as int) is Some {
            host_writes_fault(self, batch.writes@, batch.writes@.len() as int)
        } else if self.host_striped && !lane_exists(
            self.striped_lane(batch),
            self.workers@.len() as int,
            domains,
        ) {
            Some(FabricLibError::Custom("write batch lane is out of bounds"))
        } else if self.host_striped && !self.writes_narrowable(
            batch.writes@,
            self.striped_lane(batch) / domains,
        ) {
            Some(topology_error())
        } else {
            None
        }
    }

    /// A batch as it is handed to the worker `index`.
    pub open spec fn lane_batch_routed(
        &self,
        before: &WriteBatchRequest,
        index: usize,
        after: &WriteBatchRequest,
    ) -> bool {
        let domains = self.nets_per_gpu as int;
        if self.host_striped {
            &&& index == self.striped_lane(before) / domains
            &&& after.lane == (self.striped_lane(before) % domains) * WRITE_QP_LANES + before.lane
                % WRITE_QP_LANES
            &&& self.writes_narrowed(before.writes@, after.writes@, index as int)
        } else {
            &&& index == 0
            &&& *after == *before
        }
    }

    /// The command that submits a request.
    pub open spec fn submits<C, A>(
        command: WorkerCommand<C, A>,
        id: TransferId,
        request: &TransferRequest,
        tx_counter: Option<C>,
    ) -> bool {
        command == (WorkerCommand::<C, A>::SubmitTransfer {
            transfer_id: id,
            request: *request,
            tx_counter,
            admission: None,
        })
    }

    /// The source of the request is served by all workers alike.
    pub open spec fn stripes_source(&self, source: Option<Device>) -> bool {
        self.host_striped && (source matches Some(device) ==> device == Device::Host)
    }

    /// The worker that a striped request goes to: each in turn, but immediates to the first.
    pub open spec fn striped_worker(&self, source: Option<Device>) -> int {
        if source is Some {
            self.host_submit_rr as int % self.workers@.len() as int
        } else {
            0
        }
    }

    /// What becomes of a batch: the worker of its lane and the command, or why there is none.
    pub open spec fn lane_batch_outcome<C, A>(
        &self,
        id: TransferId,
        batch: &WriteBatchRequest,
        tx_counter: Option<C>,
        routed: Result<(usize, WorkerCommand<C, A>), FabricLibError>,
    ) -> bool {
        match self.lane_batch_fault(batch) {
            Some(fault) => routed == Err::<(usize, WorkerCommand<C, A>), FabricLibError>(fault),
            None => {
                &&& routed matches Ok((index, command))
                &&& Self::submits(command, id, &submitted_request(command), tx_counter)
                &&& submitted_request(command) matches TransferRequest::WriteBatch(sent)
                &&& self.lane_batch_routed(batch, index, &sent)
            },
        }
    }

    /// What becomes of a transfer that all workers serve alike: its turn decides on the worker,
    /// and it is narrowed to that.
    pub open spec fn striped_outcome<C, A>(
        &self,
        id: TransferId,
        request: &TransferRequest,
        source: Option<Device>,
        tx_counter: Option<C>,
        routed: Result<(usize, WorkerCommand<C, A>), FabricLibError>,
    ) -> bool {
        let worker = self.striped_worker(source);
        let workers = self.workers@.len() as int;
        let domains = self.nets_per_gpu as int;
        if request_narrowable(request, worker, workers, domains) {
            &&& routed matches Ok((index, command))
            &&& index == worker
            &&& Self::submits(command, id, &submitted_request(command), tx_counter)
            &&& request_outcome(
                request,
                &submitted_request(command),
                worker,
                workers,
                domains,
                Ok(()),
            )
        } else {
            routed == Err::<(usize, WorkerCommand<C, A>), FabricLibError>(topology_error())
        }
    }

    /// What becomes of a transfer that one worker serves.
    pub open spec fn served_outcome<C, A>(
        &self,
        id: TransferId,
        request: &TransferRequest,
        source: Option<Device>,
        tx_counter: Option<C>,
        routed: Result<(usize, WorkerCommand<C, A>), FabricLibError>,
    ) -> bool {
        exists|place: Result<usize, FabricLibError>|
            {
                &&& #[trigger] self.serves(serving_device(source), place)
                &&& match place {
                    Ok(place) => routed matches Ok((index, command)) && index == place
                        && Self::submits(command, id, request, tx_counter),
                    Err(fault) => routed == Err::<(usize, WorkerCommand<C, A>), FabricLibError>(
                        fault,
                    ),
                }
            }
    }

    /// The transfer takes a turn of the striped workers.
    pub open spec fn takes_turn(&self, request: &TransferRequest) -> bool {
        !(request is WriteBatch) && (self.source_device(request) matches Ok(source) && source is Some
            && self.stripes_source(source))
    }

    /// What becomes of a transfer: the worker that carries it and its command, or why there is
    /// none.
    pub open spec fn transfer_outcome<C, A>(
        &self,
        after: &Self,
        id: TransferId,
        request: &TransferRequest,
        tx_counter: Option<C>,
        routed: Result<(usize, WorkerCommand<C, A>), FabricLibError>,
    ) -> bool {
        &&& after.same_shape(self)
        &&& after.devices() == self.devices()
        &&& after.completion_rr == self.completion_rr
        &&& after.host_submit_rr == if self.takes_turn(request) {
            self.host_submit_rr.wrapping_add(1)
        } else {
            self.host_submit_rr
        }
        &&& match request {
            TransferRequest::WriteBatch(batch) => self.lane_batch_outcome(
                id,
                batch,
                tx_counter,
                routed,
            ),
            _ => match self.source_device(request) {
                Err(fault) => routed == Err::<(usize, WorkerCommand<C, A>), FabricLibError>(fault),
                Ok(source) => if self.stripes_source(source) {
                    self.striped_outcome(id, request, source, tx_counter, routed)
                } else {
                    self.served_outcome(id, request, source, tx_counter, routed)
                },
            },
        }
    }

    /// Checks that the sources of a batch lie in host memory.
    fn check_host_writes(&self, writes: &Vec<BatchWrite>) -> (checked: Result<(), FabricLibError>)
        ensures
            match host_writes_fault(self, writes@, writes@.len() as int) {
                Some(fault) => checked == Err::<(), FabricLibError>(fault),
                None => checked is Ok,
            },
    {
        let mut w: usize = 0;
        while w < writes.len()
            invariant
                w <= writes@.len(),
                host_writes_fault(self, writes@, w as int) is None,
            decreases writes@.len() - w,
        {
            let segments = &writes[w].segments;
            let mut s: usize = 0;
            while s < segments.len()
                invariant
                    w < writes@.len(),
                    s <= segments@.len(),
                    segments@ == writes@[w as int].segments@,
                    host_writes_fault(self, writes@, w as int) is None,
                    host_segments_fault(self, segments@, s as int) is None,
                decreases segments@.len() - s,
            {
                let fault = match self.device_for_mr(segments[s].src_mr) {
                    Err(error) => Some(error),
                    Ok(device) => {
                        if device != Device::Host {
                            Some(
                                FabricLibError::Custom(
                                    "write batches currently require host memory",
                                ),
                            )
                        } else {
                            None
                        }
                    },
                };
                assert(fault == host_segments_fault(self, segments@, s + 1));
                if let Some(fault) = fault {
                    proof {
                        lemma_host_segments_stay(
                            self,
                            segments@,
                            s + 1,
                            segments@.len() as int,
                        );
                        lemma_host_writes_stay(self, writes@, w + 1, writes@.len() as int);
                    }
                    return Err(fault);
                }
                s = s + 1;
            }
            w = w + 1;
        }
        Ok(())
    }

    /// Narrows the descriptors of a batch to one worker.
    fn narrow_writes(&self, writes: Vec<BatchWrite>, index: usize) -> (result: Result<
        Vec<BatchWrite>,
        FabricLibError,
    >)
        ensures
            if self.writes_narrowable(writes@, index as int) {
                result matches Ok(after) && self.writes_narrowed(
                    writes@,
                    after@,
                    index as int,
                )
            } else {
                result == Err::<Vec<BatchWrite>, FabricLibError>(topology_error())
            },
    {
        let ghost all = writes@;
        let mut after: Vec<BatchWrite> = Vec::with_capacity(writes.len());
        for item in it: writes
            invariant
                all == it.seq(),
                all == writes@,
                after@.len() == it.index(),
                forall|w: int|
                    #![trigger after@[w]]
                    0 <= w < after@.len() ==> after@[w].segments == all[w].segments
                        && after@[w].imm_data == all[w].imm_data && after@[w].dst_offset
                        == all[w].dst_offset && after@[w].dst_mr@ == narrowed(
                        all[w].dst_mr@,
                        index as int,
                        self.nets_per_gpu as int,
                    ),
                forall|w: int|
                    #![trigger all[w]]
                    0 <= w < it.index() ==> narrowable(
                        all[w].dst_mr.width(),
                        index as int,
                        self.workers@.len() as int,
                        self.nets_per_gpu as int,
                    ),
        {
            assert(all[it.index() as int] == item);
            let mut write = item;
            match narrow_host_descriptor(
                &mut write.dst_mr,
                index,
                self.workers.len(),
                self.nets_per_gpu as usize,
            ) {
                Ok(_) => {},
                Err(error) => {
                    return Err(error);
                },
            }
            after.push(write);
        }
        Ok(after)
    }

    /// Routes a batch by its lane.
    fn route_lane_batch(&self, batch: WriteBatchRequest) -> (routed: Result<
        (usize, WriteBatchRequest),
        FabricLibError,
    >)
        requires
            self.wf(),
        ensures
            match self.lane_batch_fault(&batch) {
                Some(fault) => routed == Err::<(usize, WriteBatchRequest), FabricLibError>(fault),
                None => routed matches Ok((index, sent)) && self.lane_batch_routed(
                    &batch,
                    index,
                    &sent,
                ),
            },
    {
        if batch.writes.len() == 0 || batch.writes.len() > MAX_WRITE_BATCH_WR {
            return Err(FabricLibError::Custom("invalid write batch length"));
        }
        match self.check_host_writes(&batch.writes) {
            Ok(_) => {},
            Err(fault) => {
                return Err(fault);
            },
        }
        if !self.host_striped {
            return Ok((0, batch));
        }
        let domains: usize = self.nets_per_gpu as usize;
        let (index, domain) = match host_write_lane(
            batch.lane / WRITE_QP_LANES,
            self.workers.len(),
            domains,
        ) {
            Ok(place) => place,
            Err(fault) => {
                return Err(fault);
            },
        };
        let lane: usize = domain * WRITE_QP_LANES + batch.lane % WRITE_QP_LANES;
        match self.narrow_writes(batch.writes, index) {
            Ok(writes) => Ok((index, WriteBatchRequest { lane, writes })),
            Err(fault) => Err(fault),
        }
    }

    /// Routes a transfer: the worker that carries it, and the command for that worker.
    ///
    /// A striped engine hands transfers from host memory to its workers in turn.
    pub fn submit_transfer<C, A>(
        &mut self,
        transfer_id: TransferId,
        request: TransferRequest,
        tx_counter: Option<C>,
    ) -> (routed: Result<(usize, WorkerCommand<C, A>), FabricLibError>)
        requires
            old(self).wf(),
        ensures
            final(self).wf(),
            old(self).transfer_outcome(final(self), transfer_id, &request, tx_counter, routed),
    {
        let ghost given = request;
        if let TransferRequest::WriteBatch(batch) = request {
            match self.route_lane_batch(batch) {
                Ok((index, sent)) => {
                    return Ok(
                        (
                            index,
                            WorkerCommand::SubmitTransfer {
                                transfer_id,
                                request: TransferRequest::WriteBatch(sent),
                                tx_counter,
                                admission: None,
                            },
                        ),
                    );
                },
                Err(fault) => {
                    return Err(fault);
                },
            }
        }
        let source = match self.find_source_device(&request) {
            Ok(source) => source,
            Err(fault) => {
                return Err(fault);
            },
        };
        let host: bool = match source {
            None => true,
            Some(device) => device == Device::Host,
        };
        if self.host_striped && host {
            let index: usize = if source.is_some() {
                let ticket: usize = self.host_submit_rr;
                self.host_submit_rr = ticket.wrapping_add(1);
                ticket % self.workers.len()
            } else {
                0
            };
            let mut sent = request;
            let narrowed = narrow_host_transfer_request(
                &mut sent,
                index,
                self.workers.len(),
                self.nets_per_gpu as usize,
            );
            match narrowed {
                Ok(_) => Ok(
                    (
                        index,
                        WorkerCommand::SubmitTransfer {
                            transfer_id,
                            request: sent,
                            tx_counter,
                            admission: None,
                        },
                    ),
                ),
                Err(fault) => Err(fault),
            }
        } else {
            let place = match source {
                Some(device) => self.get_worker(device),
                None => Ok(0),
            };
            assert(old(self).serves(serving_device(source), place));
            match place {
                Ok(index) => Ok(
                    (
                        index,
                        WorkerCommand::SubmitTransfer {
                            transfer_id,
                            request,
                            tx_counter,
                            admission: None,
                        },
                    ),
                ),
                Err(fault) => Err(fault),
            }
        }
    }

    /// The command that has a worker send a message, if there is such a worker.
    pub fn submit_send_on<C, A>(
        &self,
        worker_index: usize,
        transfer_id: TransferId,
        addr: DomainAddress,
        mr: MemoryRegionHandle,
        ptr: u64,
        len: usize,
        coalescible: bool,
    ) -> (command: Result<WorkerCommand<C, A>, FabricLibError>)
        ensures
            if worker_index < self.workers@.len() {
                command == Ok::<WorkerCommand<C, A>, FabricLibError>(
                    WorkerCommand::SubmitSend { transfer_id, mr, ptr, len, addr, coalescible },
                )
            } else {
                command == Err::<WorkerCommand<C, A>, FabricLibError>(
                    FabricLibError::Custom("Worker index is out of range"),
                )
            },
    {
        match self.get_worker_by_index(worker_index) {
            Ok(_) => Ok(
                WorkerCommand::SubmitSend { transfer_id, mr, ptr, len, addr, coalescible },
            ),
            Err(error) => Err(error),
        }
    }

    /// The command that has a worker receive a message, if there is such a worker.
    pub fn submit_recv_on<C, A>(
        &self,
        worker_index: usize,
        transfer_id: TransferId,
        mr: MemoryRegionHandle,
        ptr: u64,
        len: usize,
    ) -> (command: Result<WorkerCommand<C, A>, FabricLibError>)
        ensures
            if worker_index < self.workers@.len() {
                command == Ok::<WorkerCommand<C, A>, FabricLibError>(
                    WorkerCommand::SubmitRecv { transfer_id, mr, ptr, len },
                )
            } else {
                command == Err::<WorkerCommand<C, A>, FabricLibError>(
                    FabricLibError::Custom("Worker index is out of range"),
                )
            },
    {
        match self.get_worker_by_index(worker_index) {
            Ok(_) => Ok(WorkerCommand::SubmitRecv { transfer_id, mr, ptr, len }),
            Err(error) => Err(error),
        }
    }

    /// The command that has the first worker send a message.
    pub fn submit_send<C, A>(
        &self,
        transfer_id: TransferId,
        addr: DomainAddress,
        mr: MemoryRegionHandle,
        ptr: u64,
        len: usize,
        coalescible: bool,
    ) -> (command: Result<WorkerCommand<C, A>, FabricLibError>)
        requires
            self.wf(),
        ensures
            command == Ok::<WorkerCommand<C, A>, FabricLibError>(
                WorkerCommand::SubmitSend { transfer_id, mr, ptr, len, addr, coalescible },
            ),
    {
        self.submit_send_on(0, transfer_id, addr, mr, ptr, len, coalescible)
    }

    /// The command that has the first worker receive a message.
    pub fn submit_recv<C, A>(
        &self,
        transfer_id: TransferId,
        mr: MemoryRegionHandle,
        ptr: u64,
        len: usize,
    ) -> (command: Result<WorkerCommand<C, A>, FabricLibError>)
        requires
            self.wf(),
        ensures
            command == Ok::<WorkerCommand<C, A>, FabricLibError>(
                WorkerCommand::SubmitRecv { transfer_id, mr, ptr, len },
            ),
    {
        self.submit_recv_on(0, transfer_id, mr, ptr, len)
    }

    /// The worker that a search for a completion looks at after `k` others.
    pub open spec fn visited(&self, k: int) -> int {
        (self.completion_rr as int % self.workers@.len() as int + k) % self.workers@.len() as int
    }

    /// The first `count` workers in turn have been polled, each once, which has led from each of
    /// `links` to the next, and have given nothing.
    pub open spec fn found_nothing<S, F: Fn(S, usize) -> (S, Option<TransferCompletionEntry>)>(
        &self,
        poll: F,
        links: Seq<S>,
        count: int,
    ) -> bool {
        forall|k: int|
            0 <= k < count ==> call_ensures(
                poll,
                (links[k], #[trigger] self.visited(k) as usize),
                (links[k + 1], None::<TransferCompletionEntry>),
            )
    }

    /// The workers have been polled in turn, up to the first that gave a completion, and no other
    /// call was made: the polls have led from each of `links` to the next.
    pub open spec fn polled<S, F: Fn(S, usize) -> (S, Option<TransferCompletionEntry>)>(
        &self,
        poll: F,
        links: Seq<S>,
        completion: Option<TransferCompletionEntry>,
    ) -> bool {
        let polls = links.len() - 1;
        &&& 0 < polls <= self.workers@.len()
        &&& match completion {
            None => polls == self.workers@.len() && self.found_nothing(poll, links, polls),
            Some(entry) => self.found_nothing(poll, links, polls - 1) && call_ensures(
                poll,
                (links[polls - 1], self.visited(polls - 1) as usize),
                (links[polls], Some(entry)),
            ),
        }
    }

    /// Looks for a completion at every worker, each time beginning with the next. `poll` takes a
    /// completion of a worker, if there is one; `link` is handed to each call and comes back from
    /// it.
    pub fn poll_transfer_completion<S, F: Fn(S, usize) -> (S, Option<TransferCompletionEntry>)>(
        &mut self,
        link: S,
        poll: F,
    ) -> (searched: (S, Option<TransferCompletionEntry>))
        requires
            old(self).wf(),
            forall|s: S, i: usize|
                i < old(self).workers@.len() ==> call_requires(poll, (s, i)),
        ensures
            final(self).wf(),
            *final(self) == (FabricEngine {
                completion_rr: old(self).completion_rr.wrapping_add(1),
                ..*old(self)
            }),
            exists|links: Seq<S>|
                #[trigger] old(self).polled(poll, links, searched.1) && links[0] == link
                    && links.last() == searched.0,
    {
        let count: usize = self.workers.len();
        let start: usize = self.completion_rr % count;
        self.completion_rr = self.completion_rr.wrapping_add(1);
        let ghost mut links: Seq<S> = seq![link];
        let mut current = link;
        let mut k: usize = 0;
        while k < count
            invariant
                k <= count,
                count == old(self).workers@.len(),
                old(self).wf(),
                start == old(self).completion_rr as int % count as int,
                start < count,
                *self == (FabricEngine {
                    completion_rr: old(self).completion_rr.wrapping_add(1),
                    ..*old(self)
                }),
                forall|s: S, i: usize| i < count ==> call_requires(poll, (s, i)),
                links.len() == k + 1,
                links[0] == link,
                links.last() == current,
                old(self).found_nothing(poll, links, k as int),
            decreases count - k,
        {
            let ghost passed = links;
            let index: usize = wrap_add(start, k, count);
            assert(index == old(self).visited(k as int));
            let (next, completion) = poll(current, index);
            proof {
                links = links.push(next);
                assert(old(self).found_nothing(poll, links, k as int)) by {
                    assert forall|j: int| 0 <= j < k implies call_ensures(
                        poll,
                        (links[j], #[trigger] old(self).visited(j) as usize),
                        (links[j + 1], None::<TransferCompletionEntry>),
                    ) by {
                        assert(links[j] == passed[j] && links[j + 1] == passed[j + 1]);
                    }
                }
            }
            current = next;
            if completion.is_some() {
                assert(old(self).polled(poll, links, completion));
                return (current, completion);
            }
            k = k + 1;
        }
        let searched = (current, None::<TransferCompletionEntry>);
        assert(old(self).polled(poll, links, searched.1));
        searched
    }

    /// Takes a completion of one worker, if there is such a worker: it is polled once.
    pub fn poll_worker_completion<S, F: Fn(S, usize) -> (S, Option<TransferCompletionEntry>)>(
        &self,
        worker_index: usize,
        link: S,
        poll: F,
    ) -> (polled: (S, Option<TransferCompletionEntry>))
        requires
            worker_index < self.workers@.len() ==> call_requires(poll, (link, worker_index)),
        ensures
            if worker_index < self.workers@.len() {
                call_ensures(poll, (link, worker_index), polled)
            } else {
                polled == (link, None::<TransferCompletionEntry>)
            },
    {
        if worker_index < self.workers.len() {
            poll(link, worker_index)
        } else {
            (link, None)
        }
    }
}

/// A search that finds nothing has looked at every worker, and at each once.
pub proof fn search_visits_every_worker_once(engine: FabricEngine, worker: int) -> (k: int)
    requires
        engine.wf(),
        0 <= worker < engine.workers@.len(),
    ensures
        0 <= k < engine.workers@.len(),
        engine.visited(k) == worker,
        forall|j: int|
            0 <= j < engine.workers@.len() && #[trigger] engine.visited(j) == worker ==> j == k,
{
    let n = engine.workers@.len() as int;
    let start = engine.completion_rr as int % n;
    let k = if worker >= start {
        worker - start
    } else {
        worker - start + n
    };
    if worker >= start {
        lemma_small_mod(worker as nat, n as nat);
    } else {
        lemma_small_mod(worker as nat, n as nat);
        lemma_mod_add_multiples_vanish(worker, n);
    }
    assert forall|j: int|
        0 <= j < n && #[trigger] engine.visited(j) == worker implies j == k by {
        if j < k {
            lemma_round_robin_distinct(start, j, k, n);
        } else if k < j {
            lemma_round_robin_distinct(start, k, j, n);
        }
    }
    k
}

/// Requests have been submitted to an engine one after the other, each of which took a turn of
/// the striped workers, and `routed` is what became of them.
pub open spec fn rotating_run<C, A>(
    states: Seq<FabricEngine>,
    ids: Seq<TransferId>,
    requests: Seq<TransferRequest>,
    counters: Seq<Option<C>>,
    routed: Seq<Result<(usize, WorkerCommand<C, A>), FabricLibError>>,
) -> bool {
    &&& states.len() == routed.len() + 1
    &&& forall|k: int|
        #![trigger routed[k]]
        0 <= k < routed.len() ==> states[k].takes_turn(&requests[k]) && states[k].transfer_outcome(
            &states[k + 1],
            ids[k],
            &requests[k],
            counters[k],
            routed[k],
        )
}

/// Successive transfers that all workers of an engine serve alike go to the workers 0, 1, 2 and
/// so on in turn, and after the last to the first again; one that is refused for its descriptors
/// takes its turn all the same.
pub proof fn striped_transfers_take_turns<C, A>(
    states: Seq<FabricEngine>,
    ids: Seq<TransferId>,
    requests: Seq<TransferRequest>,
    counters: Seq<Option<C>>,
    routed: Seq<Result<(usize, WorkerCommand<C, A>), FabricLibError>>,
    k: int,
)
    requires
        rotating_run(states, ids, requests, counters, routed),
        states[0].host_submit_rr == 0,
        0 <= k < routed.len() <= usize::MAX,
    ensures
        states[k].host_submit_rr == k,
        states[k].workers == states[0].workers,
        states[k].striped_worker(Some(Device::Host)) == k % (states[0].workers@.len() as int),
        routed[k] matches Ok((index, _)) ==> index == k % (states[0].workers@.len() as int),
        routed[k] matches Err(error) ==> error == topology_error(),
    decreases k,
{
    if k > 0 {
        striped_transfers_take_turns(states, ids, requests, counters, routed, k - 1);
        let before = states[k - 1];
        assert(routed[k - 1] == routed[k - 1]);
        assert(before.transfer_outcome(
            &states[k],
            ids[k - 1],
            &requests[k - 1],
            counters[k - 1],
            routed[k - 1],
        ));
    }
    let engine = states[k];
    assert(routed[k] == routed[k]);
    assert(engine.takes_turn(&requests[k]));
    match engine.source_device(&requests[k]) {
        Ok(source) => {
            assert(engine.striped_outcome(ids[k], &requests[k], source, counters[k], routed[k]));
        },
        Err(_) => {},
    }
}

/// A batch goes to the same worker and the same lane, whether it is admitted with others or
/// submitted on its own.
pub proof fn batch_route_does_not_depend_on_the_way(
    engine: FabricEngine,
    batch: WriteBatchRequest,
    index: usize,
    sent: WriteBatchRequest,
)
    requires
        engine.wf(),
        engine.lane_batch_routed(&batch, index, &sent),
    ensures
        index == engine.batch_worker(&batch),
        sent.lane == engine.batch_lane(&batch),
{
    if engine.host_striped {
        let lane = batch.lane as int;
        let lanes = WRITE_QP_LANES as int;
        let domains = engine.nets_per_gpu as int;
        lemma_div_denominator(lane, lanes, domains);
        lemma_mod_breakdown(lane, lanes, domains);
        assert(domains * lanes == lanes * domains) by (nonlinear_arith);
    }
}

proof fn lemma_one_device_stays(
    engine: &FabricEngine,
    segments: Seq<GatherSegment>,
    device: Device,
    from: int,
    to: int,
)
    requires
        from <= to,
        one_device_fault(engine, segments, device, from) is Some,
    ensures
        one_device_fault(engine, segments, device, to) == one_device_fault(
            engine,
            segments,
            device,
            from,
        ),
    decreases to - from,
{
    if from < to {
        lemma_one_device_stays(engine, segments, device, from, to - 1);
    }
}

proof fn lemma_host_segments_stay(
    engine: &FabricEngine,
    segments: Seq<GatherSegment>,
    from: int,
    to: int,
)
    requires
        from <= to,
        host_segments_fault(engine, segments, from) is Some,
    ensures
        host_segments_fault(engine, segments, to) == host_segments_fault(engine, segments, from),
    decreases to - from,
{
    if from < to {
        lemma_host_segments_stay(engine, segments, from, to - 1);
    }
}

proof fn lemma_host_writes_stay(
    engine: &FabricEngine,
    writes: Seq<BatchWrite>,
    from: int,
    to: int,
)
    requires
        from <= to,
        host_writes_fault(engine, writes, from) is Some,
    ensures
        host_writes_fault(engine, writes, to) == host_writes_fault(engine, writes, from),
    decreases to - from,
{
    if from < to {
        lemma_host_writes_stay(engine, writes, from, to - 1);
    }
}

/// A search for a completion begins with the worker after the one that the search before it
/// began with, and goes on through the workers in order.
pub proof fn searches_begin_in_turn(engine: FabricEngine, next: FabricEngine, k: int)
    requires
        engine.wf(),
        next.workers == engine.workers,
        engine.completion_rr < usize::MAX,
        next.completion_rr == engine.completion_rr + 1,
        0 <= k,
    ensures
        engine.visited(k) == (engine.completion_rr + k) % (engine.workers@.len() as int),
        next.visited(k) == engine.visited(k + 1),
{
    let n = engine.workers@.len() as int;
    lemma_add_mod_noop(engine.completion_rr as int, k, n);
    lemma_add_mod_noop(engine.completion_rr as int % n, k, n);
    lemma_mod_twice(engine.completion_rr as int, n);
    lemma_add_mod_noop(engine.completion_rr as int, k + 1, n);
    lemma_add_mod_noop(engine.completion_rr as int % n, k + 1, n);
    lemma_add_mod_noop(next.completion_rr as int, k, n);
    lemma_add_mod_noop(next.completion_rr as int % n, k, n);
    lemma_mod_twice(next.completion_rr as int, n);
}

} // verus!
