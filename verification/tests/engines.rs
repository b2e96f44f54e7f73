//! Engines: workers, registration, routing and admission.
use std::sync::Arc;

use fabric_lib::api::{
    BarrierTransferRequest, BatchWrite, DomainAddress, DomainGroupRouting, GatherSegment,
    GatherTransferRequest, GroupTransferRouting, ImmTransferRequest, MemoryRegionDescriptor,
    MemoryRegionHandle, MemoryRegionRemoteKey, PagedTransferRequest, PeerGroupHandle,
    ScatterTarget, ScatterTransferRequest, SingleTransferRequest, TransferCompletionEntry,
    TransferId, TransferRequest, UvmWatcherId, WriteBatchRequest,
};
use fabric_lib::cuda_compat::{CudaDeviceId, Device};
use fabric_lib::error::FabricLibError;
use fabric_lib::fabric_engine::admission::undelivered;
use fabric_lib::fabric_engine::budget::WriteBudget;
use fabric_lib::fabric_engine::lanes::narrow_host_descriptor;
use fabric_lib::fabric_engine::replies;
use fabric_lib::provider::MemoryRegion;
use fabric_lib::worker::uvm::UvmWatcherReply;
use fabric_lib::worker::{WorkerCommand, WorkerReply};
use fabric_lib::{FabricEngine, WorkerHandle};

const SRC: u64 = 0x10_0000;
const GPU_SRC: u64 = 0x20_0000;

type Command = WorkerCommand<(), ()>;

fn worker(domains: u8, first: u8) -> WorkerHandle {
    WorkerHandle {
        write_batches: true,
        aggregated_link_speed: 100 * domains as u64,
        address_list: (0..domains).map(|d| DomainAddress(vec![first, d])).collect(),
    }
}

fn register(engine: &mut FabricEngine, ptr: u64, device: Device) {
    engine
        .register_memory_local(ptr, 64, device, (), |link, _, region: MemoryRegion| {
            (link, Ok(MemoryRegionHandle::new(region.ptr)))
        })
        .1
        .unwrap();
}

/// Three workers of two domains each, serving host memory alike.
fn striped() -> FabricEngine {
    let workers = vec![(0, worker(2, 10)), (1, worker(2, 11)), (2, worker(2, 12))];
    let mut engine = FabricEngine::new_host_striped(workers).unwrap();
    register(&mut engine, SRC, Device::Host);
    engine
}

fn plain() -> FabricEngine {
    let workers = vec![(4, worker(2, 14)), (2, worker(2, 12))];
    let mut engine = FabricEngine::new(workers).unwrap();
    register(&mut engine, SRC, Device::Host);
    register(&mut engine, GPU_SRC, Device::Cuda(CudaDeviceId(4)));
    engine
}

fn descriptor(width: u8) -> MemoryRegionDescriptor {
    MemoryRegionDescriptor {
        ptr: 4096,
        addr_rkey_list: (0..width)
            .map(|i| (DomainAddress(vec![i]), MemoryRegionRemoteKey(i as u64)))
            .collect(),
    }
}

fn keys(descriptor: &MemoryRegionDescriptor) -> Vec<u64> {
    descriptor.addr_rkey_list.iter().map(|entry| entry.1.0).collect()
}

fn single(src: u64, width: u8) -> TransferRequest {
    TransferRequest::Single(SingleTransferRequest {
        src_mr: MemoryRegionHandle::new(src),
        src_offset: 0,
        length: 8,
        imm_data: None,
        dst_mr: descriptor(width),
        dst_offset: 0,
        domain: DomainGroupRouting::Pinned { domain_idx: 0 },
    })
}

fn text<T>(result: Result<T, FabricLibError>) -> &'static str {
    match result {
        Err(FabricLibError::Custom(text)) => text,
        Err(_) => panic!("another error"),
        Ok(_) => panic!("no error"),
    }
}

#[test]
fn engine_needs_workers_of_one_topology() {
    assert_eq!(text(FabricEngine::new(vec![])), "FabricEngine requires at least one worker");
    let uneven = || vec![(0, worker(2, 10)), (1, worker(1, 11))];
    assert_eq!(
        text(FabricEngine::new_host_striped(uneven())),
        "striped host workers must have the same domain topology"
    );
    let engine = FabricEngine::new(uneven()).unwrap();
    assert_eq!(engine.num_groups(), 2);
    assert_eq!(engine.num_domains(), 3);
    assert_eq!(engine.aggregated_link_speed(), 300);
    assert_eq!(engine.nets_per_gpu(), 2);
    assert_eq!(engine.host_write_lane_count(), 4);
    assert_eq!(striped().host_write_lane_count(), 12);
}

#[test]
fn workers_are_kept_by_device_number() {
    let engine = plain();
    assert_eq!(engine.worker_count(), 2);
    assert_eq!(engine.main_address(), DomainAddress(vec![14, 0]));
    assert_eq!(
        engine.main_addresses(),
        vec![DomainAddress(vec![12, 0]), DomainAddress(vec![14, 0])]
    );
    assert_eq!(engine.get_worker(Device::Host).unwrap(), 0);
    assert_eq!(engine.get_worker(Device::Cuda(CudaDeviceId(4))).unwrap(), 1);
    assert_eq!(text(engine.get_worker(Device::Cuda(CudaDeviceId(3)))), "Worker not found");
    assert_eq!(text(engine.get_worker_by_index(2)), "Worker index is out of range");
    let again =
        FabricEngine::new(vec![(1, worker(1, 10)), (0, worker(1, 11)), (1, worker(1, 12))]);
    let again = again.unwrap();
    assert_eq!(again.worker_count(), 2);
    assert_eq!(again.num_groups(), 3);
    assert_eq!(again.workers[1].1.address_list[0], DomainAddress(vec![12, 0]));
}

#[test]
fn registered_regions_have_devices_until_they_are_forgotten() {
    let mut engine = plain();
    assert_eq!(engine.device_for_mr(MemoryRegionHandle::new(SRC)).unwrap(), Device::Host);
    assert_eq!(
        engine.device_for_mr(MemoryRegionHandle::new(GPU_SRC)).unwrap(),
        Device::Cuda(CudaDeviceId(4))
    );
    let tell = |mut told: Vec<(usize, u64)>, worker: usize, ptr: u64| {
        told.push((worker, ptr));
        (told, Ok(()))
    };
    let (told, done) = engine.unregister_memory(GPU_SRC, vec![], tell);
    done.unwrap();
    assert_eq!(told, vec![(1, GPU_SRC)]);
    assert_eq!(
        text(engine.device_for_mr(MemoryRegionHandle::new(GPU_SRC))),
        "Invalid memory region"
    );
    let (told, done) = engine.unregister_memory(GPU_SRC, vec![], tell);
    assert_eq!(text(done), "Invalid memory region");
    assert!(told.is_empty());
    let down =
        engine.unregister_memory(SRC, (), |link, _, _| (link, replies::unregister_reply(None)));
    assert_eq!(text(down.1), "Worker is down");
    assert!(engine.device_for_mr(MemoryRegionHandle::new(SRC)).is_ok());
}

#[test]
fn striped_registration_asks_every_worker_and_joins_the_keys() {
    let mut engine = striped();
    let ask = |mut asked: Vec<(usize, MemoryRegion)>, worker: usize, region: MemoryRegion| {
        asked.push((worker, region));
        let mut part = descriptor(2);
        part.ptr = region.ptr;
        part.addr_rkey_list[0].1 = MemoryRegionRemoteKey(worker as u64 * 10);
        part.addr_rkey_list[1].1 = MemoryRegionRemoteKey(worker as u64 * 10 + 1);
        (asked, Ok((MemoryRegionHandle::new(region.ptr), part)))
    };
    let (asked, registered) =
        engine.register_memory_allow_remote(0x9000, 32, Device::Host, vec![], ask);
    let (handle, joined) = registered.unwrap();
    let region = MemoryRegion { ptr: 0x9000, len: 32, device: Device::Host };
    assert_eq!(asked, vec![(0, region), (1, region), (2, region)]);
    assert_eq!(handle.ptr, 0x9000);
    assert_eq!(keys(&joined), vec![0, 1, 10, 11, 20, 21]);
    for worker in 0..3 {
        let mut narrowed = joined.clone();
        narrow_host_descriptor(&mut narrowed, worker, 3, 2).unwrap();
        assert_eq!(keys(&narrowed), vec![worker as u64 * 10, worker as u64 * 10 + 1]);
    }

    let (asked, inconsistent) =
        engine.register_memory_local(1, 1, Device::Host, 0, |asked: usize, worker, _| {
            (asked + 1, Ok(MemoryRegionHandle::new(worker as u64)))
        });
    assert_eq!(text(inconsistent), "striped host workers returned inconsistent memory handles");
    assert_eq!(asked, 2);
    let whole = |width| MemoryRegionDescriptor { ptr: 1, ..descriptor(width) };
    let (_, inconsistent) =
        engine.register_memory_allow_remote(1, 1, Device::Host, (), |link, worker, _| {
            (link, Ok((MemoryRegionHandle::new(worker as u64), whole(2))))
        });
    assert_eq!(text(inconsistent), "striped host workers returned inconsistent memory handles");
    let (_, narrow) = engine.register_memory_allow_remote(1, 1, Device::Host, (), |link, _, _| {
        (link, Ok((MemoryRegionHandle::new(1), whole(1))))
    });
    assert_eq!(text(narrow), "striped host worker returned an inconsistent domain descriptor");
    assert!(engine.device_for_mr(MemoryRegionHandle::new(1)).is_err());
    let (told, done) = engine.unregister_memory(0x9000, vec![], |mut told, worker, _| {
        told.push(worker);
        (told, Ok(()))
    });
    done.unwrap();
    assert_eq!(told, vec![0, 1, 2]);
    let (_, refused) =
        engine.register_memory_local(1, 1, Device::Cuda(CudaDeviceId(9)), (), |link, _, _| {
            (link, Ok(MemoryRegionHandle::new(1)))
        });
    assert_eq!(text(refused), "Worker not found");
}

fn routed(
    engine: &mut FabricEngine,
    request: TransferRequest,
) -> Result<(usize, TransferRequest), FabricLibError> {
    let (index, command): (usize, Command) =
        engine.submit_transfer(TransferId(1), request, None)?;
    match command {
        WorkerCommand::SubmitTransfer {
            transfer_id: TransferId(1),
            request,
            tx_counter: None,
            admission: None,
        } => Ok((index, request)),
        other => panic!("unexpected {other:?}"),
    }
}

fn single_keys(request: TransferRequest) -> Vec<u64> {
    match request {
        TransferRequest::Single(request) => keys(&request.dst_mr),
        other => panic!("unexpected {other:?}"),
    }
}

#[test]
fn striped_transfers_take_turns_and_are_narrowed() {
    let mut engine = striped();
    for turn in 0..4 {
        let (index, request) = routed(&mut engine, single(SRC, 6)).unwrap();
        assert_eq!(index, turn % 3);
        let first = index as u64 * 2;
        assert_eq!(single_keys(request), vec![first, first + 1]);
    }
    let mismatch = routed(&mut engine, single(SRC, 4));
    assert_eq!(
        text(mismatch),
        "Remote memory descriptor does not match striped host worker/domain topology"
    );
    assert_eq!(engine.host_submit_rr, 5);
    assert_eq!(text(routed(&mut engine, single(3, 6))), "Invalid memory region");
    assert_eq!(engine.host_submit_rr, 5);
}

#[test]
fn striped_immediates_go_to_the_first_worker() {
    let mut engine = striped();
    let domain = DomainGroupRouting::Pinned { domain_idx: 0 };
    let imm = TransferRequest::Imm(ImmTransferRequest { imm_data: 1, dst_mr: descriptor(6), domain });
    let (index, request) = routed(&mut engine, imm).unwrap();
    assert_eq!((index, engine.host_submit_rr), (0, 0));
    assert!(matches!(request, TransferRequest::Imm(r) if keys(&r.dst_mr) == vec![0, 1]));
    let barrier = TransferRequest::Barrier(BarrierTransferRequest {
        imm_data: 1,
        dst_mrs: vec![descriptor(6), descriptor(5)],
        domain,
    });
    assert!(routed(&mut engine, barrier).is_err());
}

#[test]
fn every_kind_of_striped_transfer_is_narrowed() {
    let mut engine = striped();
    let src_mr = MemoryRegionHandle::new(SRC);
    let segments = vec![GatherSegment { src_mr, src_offset: 0, length: 4 }];
    let domain = DomainGroupRouting::RoundRobinSharded { num_shards: 1 };
    let gather = TransferRequest::Gather(GatherTransferRequest {
        segments,
        imm_data: None,
        dst_mr: descriptor(6),
        dst_offset: 0,
        domain,
    });
    let (_, request) = routed(&mut engine, gather).unwrap();
    assert!(matches!(request, TransferRequest::Gather(r) if keys(&r.dst_mr) == vec![0, 1]));
    let paged = TransferRequest::Paged(PagedTransferRequest {
        src_page_indices: Arc::new(vec![]),
        dst_page_indices: Arc::new(vec![]),
        length: 1,
        src_mr,
        src_stride: 1,
        src_offset: 0,
        dst_mr: descriptor(6),
        dst_stride: 1,
        dst_offset: 0,
        imm_data: None,
    });
    let (_, request) = routed(&mut engine, paged).unwrap();
    assert!(matches!(request, TransferRequest::Paged(r) if keys(&r.dst_mr) == vec![2, 3]));
    let target = |width| ScatterTarget {
        length: 1,
        src_offset: 5,
        dst_offset: 6,
        dst_mr: descriptor(width),
    };
    let scatter = |targets| {
        TransferRequest::Scatter(ScatterTransferRequest {
            src_mr,
            imm_data: None,
            dsts: Arc::new(targets),
            dst_handle: None,
            domain: GroupTransferRouting::AllDomainsShardBytes,
        })
    };
    let (_, request) = routed(&mut engine, scatter(vec![target(6), target(6)])).unwrap();
    match request {
        TransferRequest::Scatter(request) => {
            assert_eq!(request.dsts.len(), 2);
            assert_eq!(keys(&request.dsts[1].dst_mr), vec![4, 5]);
            assert_eq!((request.dsts[1].src_offset, request.dsts[1].dst_offset), (5, 6));
        },
        other => panic!("unexpected {other:?}"),
    }
    assert!(routed(&mut engine, scatter(vec![target(6), target(2)])).is_err());
}

#[test]
fn plain_transfers_go_to_the_worker_of_their_source() {
    let mut engine = plain();
    assert_eq!(routed(&mut engine, single(SRC, 2)).unwrap().0, 0);
    assert_eq!(routed(&mut engine, single(GPU_SRC, 2)).unwrap().0, 1);
    register(&mut engine, 77, Device::Cuda(CudaDeviceId(2)));
    let mixed = |second: u64| {
        let part = |mr| GatherSegment {
            src_mr: MemoryRegionHandle::new(mr),
            src_offset: 0,
            length: 1,
        };
        TransferRequest::Gather(GatherTransferRequest {
            segments: if second == 0 { vec![] } else { vec![part(GPU_SRC), part(second)] },
            imm_data: None,
            dst_mr: descriptor(2),
            dst_offset: 0,
            domain: DomainGroupRouting::Pinned { domain_idx: 0 },
        })
    };
    assert_eq!(routed(&mut engine, mixed(GPU_SRC)).unwrap().0, 1);
    assert_eq!(
        text(routed(&mut engine, mixed(77))),
        "GatherTransferRequest segments must belong to one device"
    );
    assert_eq!(text(routed(&mut engine, mixed(5))), "Invalid memory region");
    assert_eq!(
        text(routed(&mut engine, mixed(0))),
        "GatherTransferRequest must contain at least one segment"
    );
}

fn write(src: u64, width: u8) -> BatchWrite {
    BatchWrite {
        segments: vec![GatherSegment {
            src_mr: MemoryRegionHandle::new(src),
            src_offset: 0,
            length: 8,
        }],
        imm_data: None,
        dst_mr: descriptor(width),
        dst_offset: 0,
    }
}

fn batch(lane: usize, writes: usize) -> WriteBatchRequest {
    WriteBatchRequest { lane, writes: (0..writes).map(|_| write(SRC, 6)).collect() }
}

#[test]
fn single_batches_follow_their_lane() {
    let mut engine = striped();
    for lane in 0..12 {
        let (index, request) =
            routed(&mut engine, TransferRequest::WriteBatch(batch(lane, 1))).unwrap();
        assert_eq!(index, lane / 4);
        match request {
            TransferRequest::WriteBatch(sent) => {
                assert_eq!(sent.lane, lane % 4);
                let first = (lane / 4) as u64 * 2;
                assert_eq!(keys(&sent.writes[0].dst_mr), vec![first, first + 1]);
            },
            other => panic!("unexpected {other:?}"),
        }
    }
    let sent = |engine: &mut FabricEngine, batch| {
        text(routed(engine, TransferRequest::WriteBatch(batch)))
    };
    assert_eq!(sent(&mut engine, batch(0, 0)), "invalid write batch length");
    assert_eq!(sent(&mut engine, batch(12, 1)), "write batch lane is out of bounds");
    register(&mut engine, GPU_SRC, Device::Cuda(CudaDeviceId(1)));
    let gpu = WriteBatchRequest { lane: 0, writes: vec![write(GPU_SRC, 6)] };
    assert_eq!(sent(&mut engine, gpu), "write batches currently require host memory");
    let narrow = WriteBatchRequest { lane: 0, writes: vec![write(SRC, 2)] };
    assert!(sent(&mut engine, narrow).starts_with("Remote memory descriptor"));
}

#[test]
fn batches_are_prepared_for_the_worker_of_their_lane() {
    let mut engine = striped();
    for lane in 0..12 {
        let (index, prepared) = engine.prepare_write_batch(batch(lane, 2)).unwrap();
        assert_eq!((index, prepared.lane), (lane / 4, lane % 4));
        let first = (lane / 4) as u64 * 2;
        assert_eq!(keys(&prepared.writes[1].dst_mr), vec![first, first + 1]);
    }
    let refused = |engine: &FabricEngine, change: &dyn Fn(&mut WriteBatchRequest)| {
        let mut batch = batch(0, 2);
        change(&mut batch);
        text(engine.prepare_write_batch(batch))
    };
    assert_eq!(refused(&engine, &|b| b.lane = 12), "invalid or unsupported write batch");
    assert_eq!(refused(&engine, &|b| b.writes.clear()), "invalid or unsupported write batch");
    assert_eq!(
        refused(&engine, &|b| b.writes[1].segments.clear()),
        "invalid write batch SGE count"
    );
    assert_eq!(
        refused(&engine, &|b| b.writes[0].segments[0].length = 0),
        "write batches require nonempty host-memory segments"
    );
    assert_eq!(
        refused(&engine, &|b| b.writes[0].segments[0].length = 1 << 32),
        "write batch SGE length exceeds u32"
    );
    assert_eq!(
        refused(&engine, &|b| b.writes[0].segments[0].src_offset = u64::MAX),
        "write batch source overflow"
    );
    assert_eq!(
        refused(&engine, &|b| b.writes[0].segments[0].src_mr.ptr = 3),
        "Invalid memory region"
    );
    assert_eq!(
        refused(&engine, &|b| b.writes[1].dst_mr.addr_rkey_list[0].0 = DomainAddress(vec![99])),
        "one write batch cannot target different peers"
    );
    assert_eq!(
        refused(&engine, &|b| b.writes[1].dst_offset = u64::MAX),
        "write batch destination overflow"
    );
    assert_eq!(
        refused(&engine, &|b| b.writes[1].dst_mr = descriptor(2)),
        "Remote memory descriptor does not match striped host worker/domain topology"
    );
    engine.workers[2].1.write_batches = false;
    assert!(!engine.supports_write_batches());
    assert_eq!(refused(&engine, &|_| ()), "invalid or unsupported write batch");
    let plain = plain();
    assert_eq!(
        text(plain.prepare_write_batch(batch(0, 1))),
        "write batch domain topology mismatch"
    );
}

fn budgets() -> Vec<WriteBudget> {
    (0..3).map(|_| WriteBudget::new(2)).collect()
}

fn used(budgets: &[WriteBudget]) -> Vec<Vec<usize>> {
    budgets.iter().map(|budget| budget.used.clone()).collect()
}

#[test]
fn batches_are_admitted_together() {
    let engine = striped();
    let mut budgets = budgets();
    let list = vec![
        (TransferId(1), batch(10, 3)),
        (TransferId(2), batch(0, 5)),
        (TransferId(3), batch(8, 7)),
    ];
    let (asked, groups) =
        engine.try_submit_write_batches(list, &mut budgets, vec![], |mut asked, worker| {
            asked.push(worker);
            (asked, true)
        });
    let groups = groups.unwrap();
    assert_eq!(asked, vec![0, 2]);
    assert_eq!(used(&budgets), vec![vec![5, 0], vec![0, 0], vec![7, 3]]);
    let seen: Vec<(usize, Vec<u64>)> = groups
        .iter()
        .map(|group| (group.worker, group.batches.iter().map(|entry| entry.0.0).collect()))
        .collect();
    assert_eq!(seen, vec![(0, vec![2]), (2, vec![1, 3])]);
    assert_eq!(groups[1].batches[0].2.slots, vec![(1, 3)]);
    let failures = undelivered(&groups[1].batches);
    assert_eq!(failures.len(), 2);
    assert_eq!(failures[0].0, TransferId(1));
    assert!(matches!(
        failures[1].1,
        FabricLibError::Custom("worker stopped after batch admission")
    ));
    for group in groups {
        for (_, _, guard) in group.batches {
            budgets[group.worker].release(guard);
        }
    }
    assert_eq!(used(&budgets), vec![vec![0, 0]; 3]);
}

#[test]
fn one_refusal_admits_nothing() {
    let mut engine = striped();
    let mut budgets = budgets();
    let two = || vec![(TransferId(1), batch(0, 5)), (TransferId(2), batch(4, 5))];
    let (asked, busy) =
        engine.try_submit_write_batches(two(), &mut budgets, vec![], |mut asked, worker| {
            asked.push(worker);
            (asked, worker != 1)
        });
    assert!(matches!(busy, Err(FabricLibError::Full)));
    assert_eq!(asked, vec![0, 1]);
    assert_eq!(used(&budgets), vec![vec![0, 0]; 3]);

    let free = |link: (), _: usize| (link, true);
    budgets[1].used[0] = 1020;
    let full = engine.try_submit_write_batches(two(), &mut budgets, (), free).1;
    assert!(matches!(full, Err(FabricLibError::Full)));
    let too_many = (0..17).map(|i| (TransferId(i), batch(0, 64))).collect();
    assert_eq!(
        text(engine.try_submit_write_batches(too_many, &mut budgets, (), free).1),
        "batch exceeds domain SQ budget"
    );
    let invalid = vec![(TransferId(1), batch(0, 1)), (TransferId(2), batch(99, 1))];
    assert_eq!(
        text(engine.try_submit_write_batches(invalid, &mut budgets, (), free).1),
        "invalid or unsupported write batch"
    );
    assert_eq!(used(&budgets), vec![vec![0, 0], vec![1020, 0], vec![0, 0]]);
    engine.stop();
    assert!(engine.is_stopped());
    assert_eq!(
        text(engine.try_submit_write_batches(two(), &mut budgets, (), free).1),
        "engine is stopped"
    );
}

#[test]
fn transfers_are_charged_by_their_routing() {
    let charge = |request: TransferRequest| {
        let mut budget = WriteBudget::new(2);
        let guard = budget.charge_transfer(&request);
        let charged = budget.used.clone();
        budget.release(guard);
        assert_eq!(budget.used, vec![0, 0]);
        charged
    };
    assert_eq!(charge(single(SRC, 2)), vec![1, 0]);
    let domain = DomainGroupRouting::RoundRobinSharded { num_shards: 1 };
    let dst_mrs = vec![descriptor(2), descriptor(2), descriptor(2)];
    assert_eq!(
        charge(TransferRequest::Barrier(BarrierTransferRequest { imm_data: 0, dst_mrs, domain })),
        vec![3, 3]
    );
    assert_eq!(charge(TransferRequest::WriteBatch(batch(3, 9))), vec![0, 9]);
    assert_eq!(charge(TransferRequest::WriteBatch(batch(4, 9))), vec![0, 0]);
    let paged = TransferRequest::Paged(PagedTransferRequest {
        src_page_indices: Arc::new(vec![1, 2, 3]),
        dst_page_indices: Arc::new(vec![1, 2, 3]),
        length: 1,
        src_mr: MemoryRegionHandle::new(SRC),
        src_stride: 1,
        src_offset: 0,
        dst_mr: descriptor(2),
        dst_stride: 1,
        dst_offset: 0,
        imm_data: None,
    });
    assert_eq!(charge(paged), vec![4, 4]);
}

#[test]
fn searches_begin_with_each_worker_in_turn() {
    let mut engine = striped();
    let nothing = |mut order: Vec<usize>, worker: usize| {
        order.push(worker);
        (order, None)
    };
    let (order, found) = engine.poll_transfer_completion(vec![], nothing);
    assert!(found.is_none());
    let (order, found) = engine.poll_transfer_completion(order, nothing);
    assert!(found.is_none());
    assert_eq!(order, vec![0, 1, 2, 1, 2, 0]);
    let entry = |polls: u32, worker: usize| {
        (polls + 1, Some(TransferCompletionEntry::ImmData(worker as u32)))
    };
    assert!(matches!(
        engine.poll_transfer_completion(0, entry),
        (1, Some(TransferCompletionEntry::ImmData(2)))
    ));
    assert!(matches!(
        engine.poll_worker_completion(1, 0, entry),
        (1, Some(TransferCompletionEntry::ImmData(1)))
    ));
    assert!(matches!(engine.poll_worker_completion(3, 0, entry), (0, None)));
}

#[test]
fn messages_name_their_worker() {
    let engine = striped();
    let mr = MemoryRegionHandle::new(SRC);
    let send: Result<Command, _> =
        engine.submit_send_on(2, TransferId(4), DomainAddress(vec![1]), mr, SRC, 9, true);
    assert!(matches!(
        send,
        Ok(WorkerCommand::SubmitSend { transfer_id: TransferId(4), len: 9, coalescible: true, .. })
    ));
    let send: Result<Command, _> =
        engine.submit_send_on(3, TransferId(4), DomainAddress(vec![1]), mr, SRC, 9, true);
    assert_eq!(text(send), "Worker index is out of range");
    let recv: Result<Command, _> = engine.submit_recv(TransferId(4), mr, SRC, 9);
    assert!(matches!(recv, Ok(WorkerCommand::SubmitRecv { ptr: SRC, .. })));
}

#[test]
fn silence_of_a_worker_is_an_error() {
    let handle = MemoryRegionHandle::new(1);
    let reply = Some(WorkerReply::RegisteredLocal(Ok(handle)));
    assert_eq!(replies::local_reply(reply).unwrap(), handle);
    assert_eq!(text(replies::local_reply(None)), "Worker is down");
    assert_eq!(text(replies::remote_reply(Some(WorkerReply::Unregistered))), "Worker is down");
    assert!(replies::unregister_reply(Some(WorkerReply::Unregistered)).is_ok());
    let reply = Some(WorkerReply::PeerGroup(Ok(PeerGroupHandle(3))));
    assert_eq!(replies::peer_group_reply(reply).unwrap(), PeerGroupHandle(3));
    let word = UvmWatcherId(8);
    assert_eq!(
        replies::acquire_reply(Some(UvmWatcherReply::Acquired(Some(word)))).unwrap(),
        word
    );
    assert_eq!(
        text(replies::acquire_reply(Some(UvmWatcherReply::Acquired(None)))),
        "Failed to acquire UVM watcher"
    );
    assert_eq!(text(replies::release_reply(None)), "Worker is down");
}

#[test]
fn both_ways_of_submitting_a_batch_lead_to_the_same_place() {
    let mut engine = striped();
    for lane in 0..12 {
        let (index, prepared) = engine.prepare_write_batch(batch(lane, 1)).unwrap();
        let routed = routed(&mut engine, TransferRequest::WriteBatch(batch(lane, 1))).unwrap();
        assert_eq!(index, routed.0);
        match routed.1 {
            TransferRequest::WriteBatch(sent) => assert_eq!(sent.lane, prepared.lane),
            other => panic!("unexpected {other:?}"),
        }
    }
}
