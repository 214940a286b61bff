//! Scheduler behaviour: drain priority, render stack order, re-entrant
//! pushes, and the millisecond conversion.

use djed::scheduler::{scheduler, ComponentRunnableType, Runnable, Scheduler};
use djed::services::to_ms;

#[test]
fn drain_order_destroy_create_then_renders_lifo() {
    // one destroy, one create, two renders, pushed in arbitrary order:
    // executed order is destroy, create, then the renders newest-first
    let mut s: Scheduler<Runnable> = scheduler();
    let mut log: Vec<u64> = Vec::new();
    s.push_comp(ComponentRunnableType::Render, Runnable::leaf(31));
    s.push_comp(ComponentRunnableType::Destroy, Runnable::leaf(10));
    s.push_comp(ComponentRunnableType::Render, Runnable::leaf(32));
    s.push_comp(ComponentRunnableType::Create, Runnable::leaf(20));
    s.start(&mut log);
    assert_eq!(log, vec![10, 20, 32, 31]);
}

#[test]
fn drain_order_full_priority() {
    let mut s: Scheduler<Runnable> = Scheduler::new();
    let mut log: Vec<u64> = Vec::new();
    s.push(Runnable::leaf(50));
    s.push_comp(ComponentRunnableType::Update, Runnable::leaf(30));
    s.push_comp(ComponentRunnableType::Render, Runnable::leaf(40));
    s.push_comp(ComponentRunnableType::Create, Runnable::leaf(20));
    s.push_comp(ComponentRunnableType::Destroy, Runnable::leaf(10));
    s.push(Runnable::leaf(51));
    s.start(&mut log);
    assert_eq!(log, vec![10, 20, 30, 40, 50, 51]);
}

#[test]
fn fifo_queues_keep_push_order() {
    let mut s: Scheduler<Runnable> = Scheduler::new();
    let mut log: Vec<u64> = Vec::new();
    s.push_comp(ComponentRunnableType::Destroy, Runnable::leaf(1));
    s.push_comp(ComponentRunnableType::Destroy, Runnable::leaf(2));
    s.push_comp(ComponentRunnableType::Destroy, Runnable::leaf(3));
    s.start(&mut log);
    assert_eq!(log, vec![1, 2, 3]);
}

#[test]
fn reentrant_push_is_drained_by_the_active_loop() {
    // an action that pushes while it runs does not start a nested loop; the
    // active loop picks the new work up before it exits
    let mut s: Scheduler<Runnable> = Scheduler::new();
    let mut log: Vec<u64> = Vec::new();
    let step = Runnable {
        label: 1,
        comp_pushes: vec![(ComponentRunnableType::Render, 2)],
        main_pushes: vec![3],
    };
    s.push(step);
    s.start(&mut log);
    assert_eq!(log, vec![1, 2, 3]);
}

#[test]
fn reentrant_push_respects_priority() {
    // work pushed during execution still drains in priority order
    let mut s: Scheduler<Runnable> = Scheduler::new();
    let mut log: Vec<u64> = Vec::new();
    let step = Runnable {
        label: 1,
        comp_pushes: vec![
            (ComponentRunnableType::Render, 4),
            (ComponentRunnableType::Destroy, 2),
            (ComponentRunnableType::Create, 3),
        ],
        main_pushes: vec![],
    };
    s.push(step);
    s.start(&mut log);
    assert_eq!(log, vec![1, 2, 3, 4]);
}

#[test]
fn start_on_empty_scheduler_does_nothing() {
    let mut s: Scheduler<Runnable> = Scheduler::new();
    let mut log: Vec<u64> = Vec::new();
    s.start(&mut log);
    assert!(log.is_empty());
}

#[test]
fn next_runnable_pops_by_priority() {
    let mut s: Scheduler<u64> = Scheduler::new();
    s.push(5);
    s.push_comp(ComponentRunnableType::Render, 4);
    s.push_comp(ComponentRunnableType::Update, 3);
    s.push_comp(ComponentRunnableType::Create, 2);
    s.push_comp(ComponentRunnableType::Destroy, 1);
    assert_eq!(s.next_runnable(), Some(1));
    assert_eq!(s.next_runnable(), Some(2));
    assert_eq!(s.next_runnable(), Some(3));
    assert_eq!(s.next_runnable(), Some(4));
    assert_eq!(s.next_runnable(), Some(5));
    assert_eq!(s.next_runnable(), None);
}

#[test]
fn render_queue_pops_newest_first() {
    let mut s: Scheduler<u64> = Scheduler::new();
    s.push_comp(ComponentRunnableType::Render, 1);
    s.push_comp(ComponentRunnableType::Render, 2);
    s.push_comp(ComponentRunnableType::Render, 3);
    assert_eq!(s.next_runnable(), Some(3));
    assert_eq!(s.next_runnable(), Some(2));
    assert_eq!(s.next_runnable(), Some(1));
}

#[test]
fn to_ms_exact_values() {
    assert_eq!(to_ms(0, 0), 0);
    assert_eq!(to_ms(2, 250), 2250);
    assert_eq!(to_ms(1, 999), 1999);
    // seconds are truncated to the 32-bit range before scaling
    assert_eq!(to_ms(0x1_0000_0000, 7), 7);
}

#[test]
fn push_start_runs_the_action_before_returning() {
    // the composite entry point: enqueue, then the drain runs everything
    let mut s: Scheduler<Runnable> = Scheduler::new();
    let mut log: Vec<u64> = Vec::new();
    s.push_start(Runnable::leaf(7), &mut log);
    assert_eq!(log, vec![7]);
    s.push_start(Runnable::leaf(8), &mut log);
    assert_eq!(log, vec![7, 8]);
}

#[test]
fn push_comp_start_drains_by_priority() {
    // earlier queued work still goes first when the composite push drains
    let mut s: Scheduler<Runnable> = Scheduler::new();
    let mut log: Vec<u64> = Vec::new();
    s.push_comp(ComponentRunnableType::Render, Runnable::leaf(30));
    s.push_comp_start(ComponentRunnableType::Destroy, Runnable::leaf(10), &mut log);
    assert_eq!(log, vec![10, 30]);
}

#[test]
fn push_comp_start_runs_nested_pushes_too() {
    let mut s: Scheduler<Runnable> = Scheduler::new();
    let mut log: Vec<u64> = Vec::new();
    let step = Runnable {
        label: 1,
        comp_pushes: vec![(ComponentRunnableType::Create, 2)],
        main_pushes: vec![3],
    };
    s.push_comp_start(ComponentRunnableType::Create, step, &mut log);
    assert_eq!(log, vec![1, 2, 3]);
}
