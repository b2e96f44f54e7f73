//! Completion counting, budgets, pollers and host memory.
use std::sync::Arc;
use std::time::Duration;

use fabric_lib::cuda_compat::CudaHostMemory;
use fabric_lib::domain_group::WriteOpContext;
use fabric_lib::error::FabricLibError;
use fabric_lib::fabric_engine::budget::{
    DOMAIN_WRITE_BUDGET, WriteBudget, WriteBudgetGuard, check_write_budget,
};
use fabric_lib::worker::poller::{IdleAction, IdlePoller, PollingMode};

#[test]
fn first_domain_error_keeps_other_domain_resources_alive() {
    let resource = Arc::new(());
    let weak = Arc::downgrade(&resource);
    let mut context: WriteOpContext<(), Arc<()>> = WriteOpContext {
        num_used_domains: 3,
        cnt_domain_completion: 0,
        tx_counter: None,
        error: None,
        admission: Some(resource),
    };
    assert!(!context.retire_domain(Some(FabricLibError::Custom("first QP failed"))));
    assert!(weak.upgrade().is_some());
    assert!(!context.retire_domain(Some(FabricLibError::Custom("another QP failed"))));
    assert!(weak.upgrade().is_some());
    assert!(context.retire_domain(None));
    assert!(matches!(context.error, Some(FabricLibError::Custom("first QP failed"))));
    drop(context);
    assert!(weak.upgrade().is_none());
}

#[test]
fn domain_budget_distinguishes_invalid_from_temporary_full_and_reclaims_once() {
    assert!(check_write_budget(0, DOMAIN_WRITE_BUDGET).is_ok());
    assert!(matches!(
        check_write_budget(1, DOMAIN_WRITE_BUDGET),
        Err(FabricLibError::Full)
    ));
    assert!(matches!(check_write_budget(usize::MAX, 1), Err(FabricLibError::Full)));
    assert!(matches!(
        check_write_budget(0, DOMAIN_WRITE_BUDGET + 1),
        Err(FabricLibError::Custom(_))
    ));
    let mut budget = WriteBudget { used: vec![7] };
    let guard = Arc::new(WriteBudgetGuard { slots: vec![(0, 7)] });
    let in_flight = guard.clone();
    assert!(Arc::into_inner(guard).is_none());
    assert_eq!(budget.used[0], 7);
    budget.release(Arc::into_inner(in_flight).unwrap());
    assert_eq!(budget.used[0], 0);
}

#[test]
fn adaptive_poller_parks_only_after_idle_and_rearms_on_activity() {
    let mut poller = IdlePoller::new(PollingMode::Adaptive {
        spin_duration: Duration::ZERO,
        idle_sleep: Duration::ZERO,
    });
    for _ in 0..IdlePoller::CLOCK_CHECK_INTERVAL {
        poller.wait(false);
    }
    assert!(poller.sleeping);

    poller.wait(true);
    assert!(!poller.sleeping);
    assert!(poller.idle_since.is_none());
    assert_eq!(poller.idle_polls, 0);
}

#[test]
fn busy_poller_never_enters_the_sleeping_state() {
    let mut poller = IdlePoller::new(PollingMode::Busy);
    for _ in 0..IdlePoller::CLOCK_CHECK_INTERVAL * 2 {
        poller.wait(false);
    }
    assert!(!poller.sleeping);
}

#[test]
fn host_memory_is_available_without_cuda() {
    let mut memory = CudaHostMemory::allocate(16).unwrap();
    assert_eq!(*memory.get_ref(0), 0);
    *memory.get_mut(1) = 42;
    assert_eq!(*memory.get_ref(1), 42);
}

#[test]
fn patient_poller_reads_the_clock_and_spins_on() {
    let mut poller = IdlePoller::new(PollingMode::Adaptive {
        spin_duration: Duration::from_secs(3600),
        idle_sleep: Duration::from_millis(5),
    });
    for _ in 0..IdlePoller::CLOCK_CHECK_INTERVAL * 3 {
        assert_eq!(poller.wait(false), IdleAction::Spin);
    }
    assert!(!poller.sleeping);
    assert!(poller.idle_since.is_some());
}

#[test]
fn settled_poller_sleeps_for_its_sleep_or_yields() {
    let mut sleeper = IdlePoller::new(PollingMode::Adaptive {
        spin_duration: Duration::from_nanos(100),
        idle_sleep: Duration::from_millis(5),
    });
    assert_eq!(sleeper.settle(99), IdleAction::Spin);
    assert!(!sleeper.sleeping);
    assert_eq!(sleeper.settle(100), IdleAction::Sleep(Duration::from_millis(5)));
    assert!(sleeper.sleeping);
    assert_eq!(sleeper.wait(false), IdleAction::Sleep(Duration::from_millis(5)));
    assert_eq!(sleeper.wait(true), IdleAction::Continue);

    let mut yielder = IdlePoller::new(PollingMode::Adaptive {
        spin_duration: Duration::ZERO,
        idle_sleep: Duration::ZERO,
    });
    assert_eq!(yielder.settle(0), IdleAction::Yield);
    assert_eq!(IdlePoller::new(PollingMode::default()).wait(false), IdleAction::Spin);
}
