//! Dispatch of `MeridianScheduler`: output-first drain, the think budget,
//! block-cap saturation, queue movement on phase events, and the order of
//! pending injections.

use meridian::scheduler::{MeridianScheduler, PendingInjection};
use meridian::types::{BudgetForceReason, PhaseEvent, Priority, RequestSlot};

/// The think budget a `think_batch_multiplier` of 2.0 gives an output budget.
fn think_budget(output_budget: usize) -> usize {
    output_budget * 2
}

fn schedule(s: &mut MeridianScheduler, output_budget: usize, blocks: usize) -> meridian::types::ScheduledBatch {
    s.schedule_batch(output_budget, think_budget(output_budget), blocks)
}

#[test]
fn empty_scheduler_returns_empty_batch() {
    let mut s = MeridianScheduler::new();
    let batch = schedule(&mut s, 4, 100);
    assert!(batch.is_empty());
}

#[test]
fn output_queue_drains_first() {
    let mut s = MeridianScheduler::new();
    s.admit_request(1);
    s.admit_request(2);
    s.admit_request(3);
    s.on_phase_event(2, PhaseEvent::EnterThink);
    s.on_phase_event(1, PhaseEvent::EnterThink);
    s.on_phase_event(1, PhaseEvent::ExitThink { tokens_used: 100 });

    let batch = schedule(&mut s, 2, 100);
    assert_eq!(batch.output_slots.len(), 1);
    assert_eq!(batch.output_slots[0].req_id, 1);
    assert!(batch.think_slots.len() >= 2);
}

#[test]
fn think_batch_multiplier_expands_budget() {
    let mut s = MeridianScheduler::new();
    for r in 100..110 {
        s.admit_request(r);
    }
    let batch = schedule(&mut s, 2, 100);
    assert_eq!(batch.output_slots.len(), 0);
    assert_eq!(batch.think_slots.len(), 4, "multiplier didn't expand think budget");
}

#[test]
fn memory_cap_saturates_dispatch() {
    let mut s = MeridianScheduler::new();
    for r in 0..20 {
        s.admit_request(r);
    }
    let batch = schedule(&mut s, 2, 3);
    assert_eq!(batch.output_slots.len() + batch.think_slots.len(), 3);
}

#[test]
fn exit_think_moves_request_between_queues() {
    let mut s = MeridianScheduler::new();
    s.admit_request(42);
    s.on_phase_event(42, PhaseEvent::EnterThink);
    assert_eq!(s.think_queue_depth(), 2, "admit + EnterThink both enqueue");

    s.on_phase_event(42, PhaseEvent::ExitThink { tokens_used: 50 });
    assert_eq!(s.output_queue_depth(), 1);
    assert_eq!(s.think_queue_depth(), 1, "only one think slot is removed");
}

#[test]
fn complete_clears_request_from_both_queues() {
    let mut s = MeridianScheduler::new();
    s.admit_request(9);
    s.on_phase_event(9, PhaseEvent::ExitThink { tokens_used: 5 });
    assert_eq!(s.think_queue_depth(), 0, "ExitThink should drain the think slot");
    assert_eq!(s.output_queue_depth(), 1);

    s.on_phase_event(9, PhaseEvent::Complete);
    assert_eq!(s.think_queue_depth(), 0);
    assert_eq!(s.output_queue_depth(), 0);
}

#[test]
fn force_budget_queues_pending_injection() {
    let mut s = MeridianScheduler::new();
    s.on_phase_event(
        7,
        PhaseEvent::ForceBudget {
            inject_token: 128_800,
            reason: BudgetForceReason::Converged,
        },
    );
    let pi = s.pop_pending_injection().expect("injection present");
    assert_eq!(pi.req_id, 7);
    assert_eq!(pi.token_id, 128_800);
    assert!(s.pop_pending_injection().is_none(), "queue should drain");
}

#[test]
fn multiple_force_budgets_queue_in_order() {
    let mut s = MeridianScheduler::new();
    for (r, t) in [(1, 100), (2, 200), (3, 300)] {
        s.on_phase_event(
            r,
            PhaseEvent::ForceBudget {
                inject_token: t,
                reason: BudgetForceReason::HardCap,
            },
        );
    }
    let first = s.pop_pending_injection().unwrap();
    let second = s.pop_pending_injection().unwrap();
    let third = s.pop_pending_injection().unwrap();
    assert_eq!(first.req_id, 1);
    assert_eq!(second.req_id, 2);
    assert_eq!(third.req_id, 3);
}

#[test]
fn output_priority_dominates_under_pressure() {
    let mut s = MeridianScheduler::new();
    for r in 0..10 {
        s.admit_request(r);
    }
    s.on_phase_event(99, PhaseEvent::ExitThink { tokens_used: 1 });

    let batch = schedule(&mut s, 1, 1);
    assert_eq!(batch.output_slots.len(), 1);
    assert_eq!(batch.output_slots[0].req_id, 99);
    assert_eq!(batch.think_slots.len(), 0);
}

// ---------------------------------------------------------------------------
// Further cases
// ---------------------------------------------------------------------------

#[test]
fn batches_preserve_queue_order_and_priorities() {
    let mut s = MeridianScheduler::new();
    for r in [5, 6, 7] {
        s.admit_request(r);
    }
    s.on_phase_event(6, PhaseEvent::ExitThink { tokens_used: 3 });
    let batch = s.schedule_batch(4, 4, 100);
    assert_eq!(
        batch.output_slots,
        vec![RequestSlot { req_id: 6, priority: Priority::High }]
    );
    assert_eq!(
        batch.think_slots,
        vec![
            RequestSlot { req_id: 5, priority: Priority::Normal },
            RequestSlot { req_id: 7, priority: Priority::Normal },
        ]
    );
    assert!(schedule(&mut s, 4, 100).is_empty());
}

#[test]
fn undispatched_slots_wait_for_the_next_iteration() {
    let mut s = MeridianScheduler::new();
    for r in 0..5 {
        s.admit_request(r);
    }
    let first = s.schedule_batch(0, 2, 100);
    assert_eq!(first.think_slots.len(), 2);
    assert_eq!(s.think_queue_depth(), 3);
    let second = s.schedule_batch(0, 10, 100);
    let ids: Vec<u64> = second.think_slots.iter().map(|slot| slot.req_id).collect();
    assert_eq!(ids, vec![2, 3, 4]);
    assert_eq!(second.len(), 3);
}

#[test]
fn no_event_changes_nothing() {
    let mut s = MeridianScheduler::new();
    s.admit_request(1);
    s.on_phase_event(1, PhaseEvent::NoEvent);
    assert_eq!(s.think_queue_depth(), 1);
    assert_eq!(s.output_queue_depth(), 0);
    assert_eq!(s.pop_pending_injection(), None);
}

#[test]
fn complete_of_unknown_request_changes_nothing() {
    let mut s = MeridianScheduler::new();
    s.admit_request(1);
    s.on_phase_event(2, PhaseEvent::Complete);
    assert_eq!(s.think_queue_depth(), 1);
    let pi = PendingInjection { req_id: 1, token_id: 2 };
    assert_eq!(pi, PendingInjection { req_id: 1, token_id: 2 });
}

#[test]
fn complete_clears_every_slot_of_the_request() {
    let mut s = MeridianScheduler::new();
    s.admit_request(42);
    s.admit_request(7);
    s.on_phase_event(42, PhaseEvent::EnterThink);
    assert_eq!(s.think_queue_depth(), 3);
    s.on_phase_event(42, PhaseEvent::Complete);
    assert_eq!(s.think_queue_depth(), 1);
    assert_eq!(s.output_queue_depth(), 0);
    let batch = s.schedule_batch(0, 4, 10);
    assert_eq!(batch.think_slots, vec![RequestSlot { req_id: 7, priority: Priority::Normal }]);
}
