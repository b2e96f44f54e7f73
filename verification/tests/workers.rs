//! Workers: their domains, their queue, and the words that they watch.
use crossbeam_channel::unbounded;
use fabric_lib::DomainInfo;
use fabric_lib::api::{
    DomainAddress, MemoryRegionHandle, TransferCompletionEntry, TransferId, UvmWatcherId,
};
use fabric_lib::cuda_compat::{CudaHostMemory, GdrFlag, cu_get_dma_buf_fd, cudaPointerGetAttributes};
use fabric_lib::error::FabricLibError;
use fabric_lib::provider::{
    DomainCompletionEntry, EfaDomainInfo, RdmaDomainInfo, VerbsDeviceInfo,
};
use fabric_lib::sharding::{div_ceil, divide_evenly, round_up, shard_single_transfer};
use fabric_lib::worker::queue::{Received, TakenCommands, take_commands};
use fabric_lib::worker::step::{COMMANDS_PER_STEP, publish};
use fabric_lib::worker::uvm::{
    UVM_WATCHER_BYTES, UvmWatcherCall, UvmWatcherContext, UvmWatcherReply, serve_uvm_call,
};
use fabric_lib::worker::{
    DomainPlan, WorkerCommand, awaits_worker_end, join_init, plan_domains,
};

fn efa() -> DomainInfo {
    DomainInfo::Efa(EfaDomainInfo { name: "rdmap0".to_string(), link_speed: 200 })
}

fn verbs() -> DomainInfo {
    DomainInfo::Verbs(VerbsDeviceInfo { name: "mlx5_0".to_string(), link_speed: 400 })
}

fn text<T>(result: Result<T, FabricLibError>) -> &'static str {
    match result {
        Err(FabricLibError::Custom(text)) => text,
        _ => panic!("no such error"),
    }
}

#[test]
fn workers_open_supported_numbers_of_one_provider() {
    for count in [1, 2, 4] {
        let plan = plan_domains((0..count).map(|_| efa()).collect()).unwrap();
        assert!(matches!(plan, DomainPlan::Efa(infos) if infos.len() == count));
    }
    for count in [1, 2] {
        let plan = plan_domains((0..count).map(|_| verbs()).collect()).unwrap();
        assert!(matches!(plan, DomainPlan::Verbs(infos) if infos.len() == count));
    }
    assert_eq!(
        text(plan_domains(vec![efa(), efa(), efa()])),
        "Only support 1, 2, or 4 domains per GPU for EFA"
    );
    assert_eq!(text(plan_domains(vec![])), "Only support 1, 2, or 4 domains per GPU for EFA");
    assert_eq!(
        text(plan_domains((0..4).map(|_| verbs()).collect())),
        "Only support 1 or 2 domains per GPU for Verbs"
    );
    assert_eq!(text(plan_domains(vec![efa(), verbs()])), "Cannot mix EFA and Verbs domains");
    assert_eq!((verbs().name(), verbs().link_speed()), ("mlx5_0", 400));
    assert_eq!((efa().name(), efa().link_speed()), ("rdmap0", 200));
}

#[test]
fn worker_start_needs_both_threads() {
    let ok = || Some(Ok::<_, FabricLibError>(1));
    assert_eq!(join_init(ok(), Some(Ok(2))).unwrap(), (1, 2));
    assert_eq!(
        text(join_init::<i32, i32>(None, Some(Err(FabricLibError::Full)))),
        "Failed to receive worker init"
    );
    assert_eq!(
        text(join_init::<i32, i32>(Some(Err(FabricLibError::Full)), None)),
        "Failed to receive UVM watcher init"
    );
    assert!(matches!(
        join_init::<i32, i32>(Some(Err(FabricLibError::Full)), Some(Err(FabricLibError::Errno(1)))),
        Err(FabricLibError::Full)
    ));
    assert!(matches!(
        join_init::<i32, i32>(ok(), Some(Err(FabricLibError::Errno(1)))),
        Err(FabricLibError::Errno(1))
    ));
}

#[test]
fn a_failed_start_waits_for_its_thread_only_after_both_reports() {
    let ok = Some(Ok::<i32, FabricLibError>(1));
    let failed = || Some(Err::<i32, FabricLibError>(FabricLibError::Full));
    assert!(awaits_worker_end(&failed(), &ok));
    assert!(awaits_worker_end(&ok, &failed()));
    assert!(awaits_worker_end(&failed(), &failed()));
    assert!(!awaits_worker_end(&ok, &ok));
    assert!(!awaits_worker_end::<i32, i32>(&None, &failed()));
    assert!(!awaits_worker_end::<i32, i32>(&failed(), &None));
}

#[test]
fn commands_are_taken_in_order_up_to_a_bound() {
    let (tx, rx) = unbounded();
    for id in 0..70 {
        let command: WorkerCommand<(), ()> = WorkerCommand::SubmitRecv {
            transfer_id: TransferId(id),
            mr: MemoryRegionHandle::new(1),
            ptr: 1,
            len: 1,
        };
        tx.send(command).unwrap();
    }
    let (rx, taken) = take_commands(rx);
    assert_eq!(taken.commands.len(), COMMANDS_PER_STEP);
    assert!(taken.connected);
    assert!(matches!(
        taken.commands[5],
        WorkerCommand::SubmitRecv { transfer_id: TransferId(5), .. }
    ));
    let (rx, taken) = take_commands(rx);
    assert_eq!((taken.commands.len(), taken.connected), (6, true));
    drop(tx);
    let (_, taken) = take_commands(rx);
    assert_eq!((taken.commands.len(), taken.connected), (0, false));
}

#[test]
fn looking_ends_with_an_empty_queue_or_at_the_bound() {
    let mut taken: TakenCommands<(), ()> =
        TakenCommands { commands: vec![], connected: true };
    let command = |id| WorkerCommand::SubmitRecv {
        transfer_id: TransferId(id),
        mr: MemoryRegionHandle::new(1),
        ptr: 1,
        len: 1,
    };
    for id in 0..63 {
        assert!(taken.note(Received::Item(command(id))));
    }
    assert!(!taken.note(Received::Empty));
    assert!(!taken.note(Received::Item(command(63))));
    assert!(taken.connected);
    assert!(!taken.note(Received::Disconnected));
    assert_eq!((taken.commands.len(), taken.connected), (64, false));
}

#[test]
fn confirmed_success_is_not_published() {
    let confirmed = TransferId(1 << 63 | 4);
    assert!(publish(DomainCompletionEntry::Send(confirmed)).is_none());
    assert!(publish(DomainCompletionEntry::Transfer(confirmed)).is_none());
    assert!(matches!(
        publish(DomainCompletionEntry::Error(confirmed, FabricLibError::Full)),
        Some(TransferCompletionEntry::Error(id, FabricLibError::Full)) if id == confirmed
    ));
    assert!(matches!(
        publish(DomainCompletionEntry::Transfer(TransferId(4))),
        Some(TransferCompletionEntry::Transfer(TransferId(4)))
    ));
    assert!(matches!(
        publish(DomainCompletionEntry::Recv { transfer_id: confirmed, data_len: 2 }),
        Some(TransferCompletionEntry::Recv { data_len: 2, .. })
    ));
}

const BASE: u64 = 0x4000;

fn watchers() -> UvmWatcherContext {
    UvmWatcherContext::new(CudaHostMemory::allocate(UVM_WATCHER_BYTES).unwrap(), BASE)
}

#[test]
fn words_are_given_out_from_the_first_and_taken_back() {
    let mut context = watchers();
    assert_eq!(context.last_values.len(), 512);
    let first = context.acquire().unwrap();
    let second = context.acquire().unwrap();
    assert_eq!((first, second), (UvmWatcherId(BASE), UvmWatcherId(BASE + 8)));
    assert!(context.release(first));
    assert!(!context.release(first));
    assert_eq!(context.acquire().unwrap(), first);
    for _ in 2..512 {
        assert!(context.acquire().is_some());
    }
    assert!(context.acquire().is_none());
}

#[test]
fn only_watched_words_report_changes() {
    let mut context = watchers();
    let id = context.acquire().unwrap();
    let mut readings = vec![0; 512];
    readings[0] = 5;
    readings[1] = 6;
    let events = context.observe(&readings);
    assert_eq!(events.len(), 1);
    assert!(matches!(
        events[0],
        TransferCompletionEntry::UvmWatch { id: seen, old: 0, new: 5 } if seen == id
    ));
    assert!(context.observe(&readings).is_empty());
    context.release(id);
    assert_eq!(*context.uvm_memory.get_ref(0), 0);
    assert_eq!(context.last_values[0], 0);
}

#[test]
fn watcher_calls_are_answered() {
    let mut context = None;
    let release = UvmWatcherCall::ReleaseUvmWatcher { watcher: UvmWatcherId(BASE) };
    assert!(matches!(serve_uvm_call(&mut context, release), UvmWatcherReply::Released));
    assert!(context.is_none());
    context = Some(watchers());
    assert!(matches!(
        serve_uvm_call(&mut context, UvmWatcherCall::AcquireUvmWatcher),
        UvmWatcherReply::Acquired(Some(UvmWatcherId(BASE)))
    ));
    assert!(matches!(serve_uvm_call(&mut context, release), UvmWatcherReply::Released));
    assert!(context.unwrap().used_slots.is_empty());
}

#[test]
fn shares_are_even_but_for_the_last() {
    assert_eq!(div_ceil(10, 4), 3);
    assert_eq!(div_ceil(usize::MAX, 1), usize::MAX);
    assert_eq!(round_up(8193, 8192), 16384);
    assert_eq!(divide_evenly(10, 4), vec![(0, 3), (3, 6), (6, 9), (9, 10)]);
    assert_eq!(divide_evenly(5, 4), vec![(0, 2), (2, 4), (4, 5)]);
    assert_eq!(divide_evenly(0, 4), vec![]);
    assert_eq!(shard_single_transfer(20000, 3), vec![(0, 8192), (8192, 8192), (16384, 3616)]);
    assert_eq!(shard_single_transfer(1, 2), vec![(0, 1), (0, 0)]);
}

#[test]
fn nothing_is_known_of_devices_without_their_runtime() {
    assert_eq!(
        cu_get_dma_buf_fd(1, 1).unwrap_err().detail,
        "DMA-BUF export requires the 'cuda' feature"
    );
    assert_eq!(
        cudaPointerGetAttributes(1).unwrap_err().detail,
        "CUDA pointer inspection requires the 'cuda' feature"
    );
    let mut flag = GdrFlag::default();
    flag.set(true);
    assert!(flag.value);
    assert_eq!(CudaHostMemory::allocate(0).unwrap().storage.len(), 1);
    assert_eq!(CudaHostMemory::allocate(17).unwrap().storage.len(), 3);
    assert!(DomainAddress(vec![1, 2]).same_as(&DomainAddress(vec![1, 2])));
}
