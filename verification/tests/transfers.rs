//! Operations with callbacks.
use fabric_lib::api::{
    DomainAddress, DomainGroupRouting, ImmTransferRequest, ImmediateEvent, MemoryRegionDescriptor,
    MemoryRegionHandle, MemoryRegionRemoteKey, SingleTransferRequest, TransferCompletionEntry,
    TransferId, TransferRequest, UvmWatcherId,
};
use fabric_lib::error::FabricLibError;
use fabric_lib::transfer_engine::{AfterMessage, Submission};
use fabric_lib::transfer_engine::callbacks::{
    CallbackId, CompletionAction, RecvContext, TransferCallback,
};
use fabric_lib::transfer_engine::threads::{
    BounceSlot, CompletionCpuPolicy, check_completion_cpus, plan_bounces, plan_threads,
};
use fabric_lib::worker::WorkerCommand;
use fabric_lib::worker::poller::PollingMode;
use fabric_lib::{SendBuffer, TransferEngine, WorkerHandle};

const CONFIRMED: u64 = 1 << 63;

fn worker() -> WorkerHandle {
    WorkerHandle {
        write_batches: true,
        aggregated_link_speed: 10,
        address_list: vec![DomainAddress(vec![1])],
    }
}

fn engine() -> TransferEngine {
    TransferEngine::new(vec![(0, worker()), (1, worker())], vec![PollingMode::Busy; 2]).unwrap().0
}

fn imm() -> TransferRequest {
    TransferRequest::Imm(ImmTransferRequest {
        imm_data: 1,
        dst_mr: MemoryRegionDescriptor {
            ptr: 1,
            addr_rkey_list: vec![(DomainAddress(vec![9]), MemoryRegionRemoteKey(1))],
        },
        domain: DomainGroupRouting::Pinned { domain_idx: 0 },
    })
}

fn unregistered() -> TransferRequest {
    TransferRequest::Single(SingleTransferRequest {
        src_mr: MemoryRegionHandle::new(5),
        src_offset: 0,
        length: 1,
        imm_data: None,
        dst_mr: MemoryRegionDescriptor { ptr: 1, addr_rkey_list: vec![] },
        dst_offset: 0,
        domain: DomainGroupRouting::Pinned { domain_idx: 0 },
    })
}

fn buffer() -> SendBuffer {
    SendBuffer { mr_handle: MemoryRegionHandle::new(64), ptr: 72, len: 8, coalescible: false }
}

type Submitted = Result<Submission<&'static str, ()>, FabricLibError>;

const DONE: CallbackId = CallbackId(1);
const FAILED: CallbackId = CallbackId(2);
const SPLIT: TransferCallback = TransferCallback { on_done: DONE, on_error: FAILED };

#[test]
fn transfers_get_successive_ids_and_one_call() {
    let mut engine = engine();
    let first: Submitted = engine.submit_transfer(imm(), SPLIT);
    let first = first.unwrap();
    assert_eq!((first.transfer_id, first.worker_index), (TransferId(0), 0));
    let second: Submitted = engine.submit_transfer_result(imm(), CallbackId(7));
    assert_eq!(second.unwrap().transfer_id, TransferId(1));

    let action = engine.handle_transfer_completion(TransferCompletionEntry::Transfer(TransferId(0)));
    assert!(matches!(action, CompletionAction::Done { callback: DONE }));
    let action = engine.handle_transfer_completion(TransferCompletionEntry::Transfer(TransferId(0)));
    assert!(matches!(action, CompletionAction::Nothing));
    let failed = TransferCompletionEntry::Error(TransferId(1), FabricLibError::Full);
    assert!(matches!(
        engine.handle_transfer_completion(failed),
        CompletionAction::Finish { callback: CallbackId(7), error: Some(FabricLibError::Full) }
    ));
}

#[test]
fn split_callbacks_tell_failure_apart() {
    let mut engine = engine();
    let submitted: Submitted = engine.submit_transfer(imm(), SPLIT);
    submitted.unwrap();
    let failed = TransferCompletionEntry::Error(TransferId(0), FabricLibError::Errno(3));
    assert!(matches!(
        engine.handle_transfer_completion(failed),
        CompletionAction::Fail { callback: FAILED, error: FabricLibError::Errno(3) }
    ));
    let submitted: Submitted = engine.submit_transfer_result(imm(), CallbackId(4));
    submitted.unwrap();
    assert!(matches!(
        engine.handle_transfer_completion(TransferCompletionEntry::Transfer(TransferId(1))),
        CompletionAction::Finish { callback: CallbackId(4), error: None }
    ));
}

#[test]
fn refused_operations_are_not_waited_for() {
    let mut engine = engine();
    let refused: Submitted = engine.submit_transfer(unregistered(), SPLIT);
    assert!(matches!(refused, Err(FabricLibError::Custom("Invalid memory region"))));
    assert!(matches!(
        engine.handle_transfer_completion(TransferCompletionEntry::Transfer(TransferId(0))),
        CompletionAction::Nothing
    ));
    let refused: Submitted =
        engine.submit_send_on(9, DomainAddress(vec![1]), buffer(), CallbackId(3));
    assert!(matches!(refused, Err(FabricLibError::Custom("Worker index is out of range"))));
    let refused: Submitted =
        engine.submit_recv_on(9, MemoryRegionHandle::new(1), 1, 1, DONE, FAILED);
    assert!(refused.is_err());
    assert_eq!(engine.next_transfer_id, 3);
    let undelivered: Submitted = engine.submit_transfer(imm(), SPLIT);
    engine.withdraw(&undelivered.unwrap().command);
    let failed = TransferCompletionEntry::Error(TransferId(3), FabricLibError::Full);
    assert!(matches!(engine.handle_transfer_completion(failed), CompletionAction::Nothing));
}

#[test]
fn counted_transfers_are_not_called_for() {
    let mut engine = engine();
    let submitted: Submitted = engine.submit_transfer_atomic(imm(), "counter");
    match submitted.unwrap().command {
        WorkerCommand::SubmitTransfer { tx_counter: Some("counter"), admission: None, .. } => {},
        other => panic!("unexpected {other:?}"),
    }
    assert!(matches!(
        engine.handle_transfer_completion(TransferCompletionEntry::Transfer(TransferId(0))),
        CompletionAction::Nothing
    ));
}

#[test]
fn confirmed_operations_carry_the_bit_and_call_nothing() {
    let mut engine = engine();
    let sent: Submitted =
        engine.submit_send_remote_confirmed_on(1, DomainAddress(vec![1]), buffer());
    let sent = sent.unwrap();
    assert_eq!((sent.transfer_id, sent.worker_index), (TransferId(CONFIRMED), 1));
    assert!(sent.transfer_id.is_remote_confirmed());
    let moved: Submitted = engine.submit_transfer_remote_confirmed(imm());
    let id = moved.unwrap().transfer_id;
    assert_eq!(id, TransferId(CONFIRMED | 1));
    let sent: Submitted = engine.submit_send_remote_confirmed(DomainAddress(vec![1]), buffer());
    assert_eq!(sent.unwrap().transfer_id, TransferId(CONFIRMED | 2));
    for entry in [
        TransferCompletionEntry::Transfer(id),
        TransferCompletionEntry::Send(id),
        TransferCompletionEntry::Error(id, FabricLibError::Full),
    ] {
        assert!(matches!(engine.handle_transfer_completion(entry), CompletionAction::Nothing));
    }
}

#[test]
fn sends_finish_and_receives_repeat() {
    let mut engine = engine();
    let send: Submitted = engine.submit_send_on(0, DomainAddress(vec![1]), buffer(), CallbackId(5));
    assert!(matches!(
        send.unwrap().command,
        WorkerCommand::SubmitSend { transfer_id: TransferId(0), ptr: 72, len: 8, .. }
    ));
    let mr = MemoryRegionHandle::new(64);
    let recv: Submitted = engine.submit_recv_on(1, mr, 80, 16, DONE, FAILED);
    assert_eq!(recv.unwrap().worker_index, 1);
    assert!(matches!(
        engine.handle_transfer_completion(TransferCompletionEntry::Send(TransferId(0))),
        CompletionAction::Finish { callback: CallbackId(5), error: None }
    ));
    let context =
        RecvContext { worker_index: 1, mr, ptr: 80, len: 16, on_recv: DONE, on_error: FAILED };
    for data_len in [3, 4] {
        let entry = TransferCompletionEntry::Recv { transfer_id: TransferId(1), data_len };
        match engine.handle_transfer_completion(entry) {
            CompletionAction::Receive { transfer_id, data_len: got, context: again } => {
                assert_eq!((transfer_id, got, again), (TransferId(1), data_len, context));
            },
            other => panic!("unexpected {other:?}"),
        }
    }
    let failed = TransferCompletionEntry::Error(TransferId(1), FabricLibError::Full);
    assert!(matches!(
        engine.handle_transfer_completion(failed),
        CompletionAction::Fail { callback: FAILED, .. }
    ));
    let entry = TransferCompletionEntry::Recv { transfer_id: TransferId(1), data_len: 1 };
    assert!(matches!(engine.handle_transfer_completion(entry), CompletionAction::Nothing));
}

#[test]
fn immediates_call_everyone_in_order() {
    let mut engine = engine();
    engine.add_imm_callback(CallbackId(8));
    engine.add_imm_callback(CallbackId(6));
    match engine.handle_transfer_completion(TransferCompletionEntry::ImmData(44)) {
        CompletionAction::Immediate { imm: 44, callbacks } => {
            assert_eq!(callbacks, vec![CallbackId(8), CallbackId(6)]);
        },
        other => panic!("unexpected {other:?}"),
    }
    let event = TransferCompletionEntry::Immediate(ImmediateEvent { imm_data: 1, byte_len: 2 });
    assert!(matches!(engine.handle_transfer_completion(event), CompletionAction::Nothing));
}

#[test]
fn counts_call_once_or_until_they_are_told_to_stop() {
    let mut engine = engine();
    let reached = || TransferCompletionEntry::ImmCountReached(3);
    engine.set_imm_count_expected(3, CallbackId(1), true);
    assert!(matches!(
        engine.handle_transfer_completion(reached()),
        CompletionAction::CountOnce { callback: CallbackId(1) }
    ));
    assert!(matches!(engine.handle_transfer_completion(reached()), CompletionAction::Nothing));
    engine.set_imm_count_expected(3, CallbackId(2), false);
    for (answer, again) in
        [(Ok(true), true), (Ok(true), true), (Err("no more".to_string()), false)]
    {
        assert!(matches!(
            engine.handle_transfer_completion(reached()),
            CompletionAction::CountRepeated { imm: 3, callback: CallbackId(2) }
        ));
        assert_eq!(engine.callbacks.count_answered(3, &answer), !again);
    }
    assert!(matches!(engine.handle_transfer_completion(reached()), CompletionAction::Nothing));
    engine.set_imm_count_expected(3, CallbackId(2), false);
    engine.remove_imm_count(3);
    assert!(matches!(engine.handle_transfer_completion(reached()), CompletionAction::Nothing));
}

#[test]
fn watchers_are_called_until_they_are_told_to_stop() {
    let mut engine = engine();
    let id = UvmWatcherId(4096);
    engine.add_watcher(id, CallbackId(3));
    let changed = || TransferCompletionEntry::UvmWatch { id, old: 1, new: 2 };
    for (answer, again) in [(Ok(true), true), (Ok(false), false)] {
        assert!(matches!(
            engine.handle_transfer_completion(changed()),
            CompletionAction::Watch { old: 1, new: 2, callback: CallbackId(3), .. }
        ));
        assert_eq!(engine.callbacks.watch_answered(id, &answer), !again);
    }
    assert!(matches!(engine.handle_transfer_completion(changed()), CompletionAction::Nothing));
}

#[test]
fn threads_are_placed_at_a_distance_or_exactly() {
    let workers = || (0..3).map(|i| (i, worker())).collect::<Vec<_>>();
    let polling = || vec![PollingMode::Busy; 3];
    let cpus = |threads: Vec<_>| -> Vec<(Option<usize>, Option<u16>)> {
        threads
            .into_iter()
            .map(|t: fabric_lib::transfer_engine::threads::CompletionThread| {
                (t.worker_index, t.cpu)
            })
            .collect()
    };
    let (_, threads) =
        TransferEngine::new_host_striped_with_completion_cpu(workers(), polling(), Some(10))
            .unwrap();
    assert_eq!(
        cpus(threads),
        vec![(Some(0), Some(10)), (Some(1), Some(13)), (Some(2), Some(16))]
    );
    let (_, threads) =
        TransferEngine::new_with_completion_cpu(workers(), polling(), Some(10)).unwrap();
    assert_eq!(cpus(threads), vec![(None, Some(10))]);
    let exact = vec![Some(4), None, Some(2)];
    let (engine, threads) =
        TransferEngine::new_host_striped_with_completion_cpus(workers(), polling(), exact).unwrap();
    assert_eq!(cpus(threads), vec![(Some(0), Some(4)), (Some(1), None), (Some(2), Some(2))]);
    assert_eq!(engine.control_lane_count(), 3);
    assert_eq!((engine.num_domains(), engine.num_groups()), (3, 3));
    assert_eq!(engine.aggregated_link_speed(), 30);
    assert_eq!(engine.control_addresses().len(), 3);
    let uneven =
        TransferEngine::new_host_striped_with_completion_cpus(workers(), polling(), vec![None]);
    assert!(matches!(
        uneven,
        Err(FabricLibError::Custom("completion CPU count must match worker count"))
    ));
    let none = TransferEngine::new(vec![], vec![]);
    assert!(matches!(
        none,
        Err(FabricLibError::Custom("FabricEngine requires at least one worker"))
    ));
}

#[test]
fn thread_places_end_with_the_cpus() {
    let strided = CompletionCpuPolicy::Strided(Some(u16::MAX - 2));
    assert!(plan_threads(1, &strided, &vec![], true).is_ok());
    assert!(matches!(
        plan_threads(2, &strided, &vec![], true),
        Err(FabricLibError::Custom("completion CPU index overflows"))
    ));
    assert!(matches!(
        plan_threads(21847, &CompletionCpuPolicy::Strided(None), &vec![], true),
        Err(FabricLibError::Custom("completion CPU offset overflows"))
    ));
    let threads = plan_threads(21846, &CompletionCpuPolicy::Strided(None), &vec![], true).unwrap();
    assert_eq!(threads[21845].polling_mode, PollingMode::Busy);
}

#[test]
fn bounced_receives_share_one_buffer() {
    assert_eq!(
        plan_bounces(1000, 16, 2, 2),
        vec![
            BounceSlot { worker_index: 0, ptr: 1000 },
            BounceSlot { worker_index: 0, ptr: 1016 },
            BounceSlot { worker_index: 1, ptr: 1032 },
            BounceSlot { worker_index: 1, ptr: 1048 },
        ]
    );
    assert!(plan_bounces(1000, 16, 0, 2).is_empty());
}

#[test]
fn immediates_beyond_a_removed_count_are_called_for() {
    let mut engine = engine();
    engine.add_imm_callback(CallbackId(8));
    match engine.callbacks.count_removed(3, Some(2)) {
        CompletionAction::Overflow { imm: 3, times: 2, callbacks } => {
            assert_eq!(callbacks, vec![CallbackId(8)]);
        },
        other => panic!("unexpected {other:?}"),
    }
    assert!(matches!(engine.callbacks.count_removed(3, Some(0)), CompletionAction::Nothing));
    assert!(matches!(engine.callbacks.count_removed(3, None), CompletionAction::Nothing));
}

#[test]
fn only_failures_to_take_a_success_stop_the_engine() {
    let callback = CallbackId(1);
    assert!(CompletionAction::Done { callback }.failure_stops_engine());
    assert!(CompletionAction::Finish { callback, error: None }.failure_stops_engine());
    let error = Some(FabricLibError::Full);
    assert!(!CompletionAction::Finish { callback, error }.failure_stops_engine());
    let error = FabricLibError::Full;
    assert!(!CompletionAction::Fail { callback, error }.failure_stops_engine());
    assert!(!CompletionAction::CountRepeated { imm: 1, callback }.failure_stops_engine());
    assert!(CompletionAction::Immediate { imm: 1, callbacks: vec![] }.failure_stops_engine());
}

#[test]
fn receives_are_submitted_again_only_after_success() {
    let mut engine = engine();
    let mr = MemoryRegionHandle::new(64);
    let recv: Submitted = engine.submit_recv_on(1, mr, 80, 16, DONE, FAILED);
    let id = recv.unwrap().transfer_id;
    let failed = || Err::<(), String>("no room".to_string());
    assert!(engine.callbacks.recv_answered(id, &failed()).is_none());
    assert!(engine.callbacks.recv_answered(TransferId(9), &Ok(())).is_none());
    assert_eq!(engine.callbacks.recv_answered(id, &Ok(())).unwrap().ptr, 80);
    let next: AfterMessage<(), ()> = engine.message_answered(id, failed());
    assert!(matches!(next, AfterMessage::Stop(text) if text == "no room"));
    let next: AfterMessage<(), ()> = engine.message_answered(TransferId(9), Ok(()));
    assert!(matches!(next, AfterMessage::Nothing));
    let next: AfterMessage<(), ()> = engine.message_answered(id, Ok(()));
    match next {
        AfterMessage::ReceiveAgain(submission) => {
            assert_eq!((submission.transfer_id, submission.worker_index), (id, 1));
            match submission.command {
                WorkerCommand::SubmitRecv { transfer_id, mr: to, ptr: 80, len: 16 } => {
                    assert_eq!((transfer_id, to), (id, mr));
                },
                other => panic!("unexpected {other:?}"),
            }
        },
        _ => panic!("not submitted again"),
    }
    engine.engine.workers.truncate(1);
    let next: AfterMessage<(), ()> = engine.message_answered(id, Ok(()));
    assert!(matches!(
        next,
        AfterMessage::Refused(FabricLibError::Custom("Worker index is out of range"))
    ));
}

#[test]
fn messages_go_through_the_first_worker_unless_another_is_named() {
    let mut engine = engine();
    let sent: Submitted = engine.submit_send(DomainAddress(vec![1]), buffer(), CallbackId(3));
    assert_eq!(sent.unwrap().worker_index, 0);
    let mr = MemoryRegionHandle::new(64);
    let received: Submitted = engine.submit_recv(mr, 80, 16, DONE, FAILED);
    let received = received.unwrap();
    assert_eq!((received.transfer_id, received.worker_index), (TransferId(1), 0));
    assert!(matches!(
        engine.handle_transfer_completion(TransferCompletionEntry::Send(TransferId(0))),
        CompletionAction::Finish { callback: CallbackId(3), error: None }
    ));
}

#[test]
fn striped_engines_bounce_on_the_first_worker_only() {
    let workers = || vec![(0, worker()), (1, worker())];
    let polling = || vec![PollingMode::Busy; 2];
    let (striped, _) =
        TransferEngine::new_host_striped_with_completion_cpu(workers(), polling(), None).unwrap();
    assert_eq!((striped.control_lane_count(), striped.bounce_lane_count()), (2, 1));
    assert_eq!(
        striped.plan_bouncing_recvs(1000, 16, 3),
        vec![
            BounceSlot { worker_index: 0, ptr: 1000 },
            BounceSlot { worker_index: 0, ptr: 1016 },
            BounceSlot { worker_index: 0, ptr: 1032 },
        ]
    );
    let plain = engine();
    assert_eq!(plain.bounce_lane_count(), 2);
    let lanes: Vec<usize> =
        plain.plan_bouncing_recvs(0, 1, 2).iter().map(|slot| slot.worker_index).collect();
    assert_eq!(lanes, vec![0, 0, 1, 1]);
}

#[test]
fn assignments_are_counted_before_workers_start() {
    assert!(check_completion_cpus(3, 3).is_ok());
    for cpus in [2, 4] {
        assert!(matches!(
            check_completion_cpus(3, cpus),
            Err(FabricLibError::Custom("completion CPU count must match worker count"))
        ));
    }
}
