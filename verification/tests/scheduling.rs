use hexane::scheduler::{needs_reconcile, Scheduler, RECONCILE_INTERVAL_SECS};

#[test]
fn burst_of_insertions_never_exceeds_limit() {
    let mut s = Scheduler::new(3, 0);
    for _ in 0..10 {
        s.file_inserted();
    }
    assert_eq!(s.pending, 10);
    let mut spawned = 0;
    while s.can_spawn() {
        s.task_spawned();
        spawned += 1;
        assert!(s.in_flight <= s.limit);
    }
    assert_eq!(spawned, 3);
    assert_eq!(s.in_flight, 3);
    assert_eq!(s.pending, 7);
    assert!(!s.can_spawn());
}

#[test]
fn finished_task_frees_its_slot() {
    let mut s = Scheduler::new(2, 5);
    s.task_spawned();
    s.task_spawned();
    assert!(!s.can_spawn());
    s.task_finished();
    assert_eq!(s.in_flight, 1);
    assert!(s.can_spawn());
}

#[test]
fn finishing_with_no_tasks_keeps_zero() {
    let mut s = Scheduler::new(2, 0);
    s.task_finished();
    assert_eq!(s.in_flight, 0);
}

#[test]
fn claim_miss_resets_pending_estimate() {
    let mut s = Scheduler::new(2, 9);
    s.claim_missed();
    assert_eq!(s.pending, 0);
    assert!(s.should_sleep());
}

#[test]
fn reconciliation_replaces_estimate() {
    let mut s = Scheduler::new(2, 1);
    s.reconciled(17);
    assert_eq!(s.pending, 17);
}

#[test]
fn reconcile_due_after_interval() {
    assert_eq!(RECONCILE_INTERVAL_SECS, 300);
    assert!(!needs_reconcile(300));
    assert!(needs_reconcile(301));
}

#[test]
fn sleep_only_when_idle_with_free_slots() {
    let mut s = Scheduler::new(1, 0);
    assert!(s.should_sleep());
    s.file_inserted();
    assert!(!s.should_sleep());
    s.task_spawned();
    // Pool full: no sleeping, the loop waits on completions instead.
    assert!(!s.should_sleep());
}
