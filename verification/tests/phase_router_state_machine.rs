//! The router's state machine: lifecycle scenarios, budget forcing, the exact
//! request count, the idle reaper, and phase monotonicity over token streams.

use meridian::phase_router::{EntropyVerdict, PhaseRouter, PhaseRouterConfig};
use meridian::types::{BudgetForceReason, PhaseEvent, ThinkPhase};

const THINK_START: u32 = 1;
const THINK_END: u32 = 2;
const EOS: u32 = 3;
const NORMAL: u32 = 100;

fn cfg() -> PhaseRouterConfig {
    PhaseRouterConfig {
        min_think_tokens: 8,
        max_think_tokens: 64,
        think_start_ids: vec![THINK_START],
        think_end_ids: vec![THINK_END],
        eos_ids: vec![EOS],
    }
}

fn router() -> PhaseRouter {
    PhaseRouter::new(cfg())
}

/// A budget large enough that the hard cap does not preempt the entropy path.
fn entropy_router() -> PhaseRouter {
    PhaseRouter::new(PhaseRouterConfig {
        max_think_tokens: 1_000_000,
        ..cfg()
    })
}

const SETTLED: EntropyVerdict = EntropyVerdict {
    eat_settled: true,
    rpdi_spiking: false,
};
const CALM: EntropyVerdict = EntropyVerdict {
    eat_settled: false,
    rpdi_spiking: false,
};
const SPIKE: EntropyVerdict = EntropyVerdict {
    eat_settled: false,
    rpdi_spiking: true,
};

#[test]
fn happy_path_full_lifecycle() {
    let mut r = router();
    r.register(1);

    assert_eq!(r.on_token(1, THINK_START, None), PhaseEvent::EnterThink);
    for _ in 0..5 {
        assert_eq!(r.on_token(1, NORMAL, None), PhaseEvent::NoEvent);
    }
    assert_eq!(
        r.on_token(1, THINK_END, None),
        PhaseEvent::ExitThink { tokens_used: 6 },
    );
    for _ in 0..3 {
        assert_eq!(r.on_token(1, NORMAL, None), PhaseEvent::NoEvent);
    }
    assert_eq!(r.on_token(1, EOS, None), PhaseEvent::Complete);

    assert!(matches!(r.phase_of(1), Some(ThinkPhase::Complete)));
}

#[test]
fn non_reasoning_model_skips_think_phase() {
    let mut r = router();
    r.register(7);

    assert_eq!(r.on_token(7, NORMAL, None), PhaseEvent::NoEvent);
    assert!(matches!(
        r.phase_of(7),
        Some(ThinkPhase::OutputDecode { think_tokens_used: 0 }),
    ));

    for _ in 0..4 {
        assert_eq!(r.on_token(7, NORMAL, None), PhaseEvent::NoEvent);
    }
    assert_eq!(r.on_token(7, EOS, None), PhaseEvent::Complete);
}

#[test]
fn nested_think_start_is_ignored() {
    let mut r = router();
    r.register(2);

    assert_eq!(r.on_token(2, THINK_START, None), PhaseEvent::EnterThink);
    assert_eq!(r.on_token(2, THINK_START, None), PhaseEvent::NoEvent);

    if let Some(ThinkPhase::ThinkDecode { tokens_so_far, .. }) = r.phase_of(2) {
        assert_eq!(tokens_so_far, 1, "counter must advance through the nested token");
    } else {
        panic!("expected ThinkDecode, got {:?}", r.phase_of(2));
    }
}

#[test]
fn hard_cap_forces_budget_without_entropy_signal() {
    let mut r = router();
    r.register(3);
    assert_eq!(r.on_token(3, THINK_START, None), PhaseEvent::EnterThink);

    for i in 1..64 {
        let ev = r.on_token(3, NORMAL, None);
        assert_eq!(ev, PhaseEvent::NoEvent, "no force expected at token {i}");
    }
    let ev = r.on_token(3, NORMAL, None);
    assert!(
        matches!(
            ev,
            PhaseEvent::ForceBudget {
                inject_token,
                reason: BudgetForceReason::HardCap,
            } if inject_token == THINK_END,
        ),
        "expected ForceBudget(HardCap) at cap, got {ev:?}",
    );
}

#[test]
fn eat_convergence_triggers_budget_force() {
    let mut r = entropy_router();
    r.register(4);
    r.on_token(4, THINK_START, None);

    let mut forced_at: Option<usize> = None;
    for i in 0..200 {
        if let PhaseEvent::ForceBudget { reason, .. } = r.on_token(4, NORMAL, Some(SETTLED)) {
            assert_eq!(reason, BudgetForceReason::Converged, "expected Converged reason");
            forced_at = Some(i);
            break;
        }
    }
    let forced_at = forced_at.expect("a settled EAT signal should have forced the budget");
    assert!(
        forced_at >= cfg().min_think_tokens as usize,
        "force fired at {forced_at}, must be >= min_think_tokens ({})",
        cfg().min_think_tokens,
    );
}

#[test]
fn rpdi_overthinking_triggers_budget_force() {
    let mut r = entropy_router();
    r.register(5);
    r.on_token(5, THINK_START, None);

    for _ in 0..40 {
        let _ = r.on_token(5, NORMAL, Some(CALM));
    }

    let mut forced = false;
    for _ in 0..50 {
        if let PhaseEvent::ForceBudget { reason, .. } = r.on_token(5, NORMAL, Some(SPIKE)) {
            assert_eq!(reason, BudgetForceReason::Overthinking);
            forced = true;
            break;
        }
    }
    assert!(forced, "RPDI overthinking should have forced the budget");
}

#[test]
fn force_in_progress_is_idempotent() {
    let mut r = router();
    r.register(6);
    r.on_token(6, THINK_START, None);

    for _ in 0..63 {
        let _ = r.on_token(6, NORMAL, None);
    }
    let first = r.on_token(6, NORMAL, None);
    assert!(matches!(first, PhaseEvent::ForceBudget { .. }));

    for _ in 0..5 {
        let ev = r.on_token(6, NORMAL, None);
        assert_eq!(ev, PhaseEvent::NoEvent, "duplicate ForceBudget emitted: {ev:?}");
    }
}

#[test]
fn unknown_request_is_safe() {
    let mut r = router();
    assert_eq!(r.on_token(999, NORMAL, None), PhaseEvent::NoEvent);
}

#[test]
fn reap_then_token_is_safe() {
    let mut r = router();
    r.register(11);
    r.reap(11);
    assert_eq!(r.on_token(11, NORMAL, None), PhaseEvent::NoEvent);
    assert_eq!(r.phase_of(11), None);
}

#[test]
fn phase_of_kind_tracks_state_machine() {
    let mut r = router();
    assert_eq!(r.phase_of_kind(1), None);
    r.register(1);
    assert_eq!(r.phase_of_kind(1), Some("prefill"));
    r.on_token(1, THINK_START, None);
    assert_eq!(r.phase_of_kind(1), Some("think_decode"));
    r.on_token(1, NORMAL, None);
    r.on_token(1, THINK_END, None);
    assert_eq!(r.phase_of_kind(1), Some("output_decode"));
    r.on_token(1, EOS, None);
    assert_eq!(r.phase_of_kind(1), Some("complete"));
}

#[test]
fn tracked_requests_counter_is_exact() {
    let mut r = router();
    assert_eq!(r.tracked_requests(), 0);
    r.register(10);
    r.register(11);
    r.register(12);
    assert_eq!(r.tracked_requests(), 3);
    r.register(10);
    assert_eq!(r.tracked_requests(), 3);
    r.reap(11);
    assert_eq!(r.tracked_requests(), 2);
    r.reap(11);
    assert_eq!(r.tracked_requests(), 2);
}

#[test]
fn reap_stale_removes_idle_requests() {
    let mut r = router();
    r.register(1);
    r.register(2);
    r.register(3);
    for _ in 0..50 {
        r.on_token(2, NORMAL, None);
    }
    let reaped = r.reap_stale(10);
    assert_eq!(reaped, 2);
    assert_eq!(r.tracked_requests(), 1);
    assert_eq!(r.phase_of_kind(2), Some("output_decode"));
    assert_eq!(r.phase_of_kind(1), None);
    assert_eq!(r.phase_of_kind(3), None);
}

#[test]
fn reap_stale_with_huge_threshold_keeps_everyone() {
    let mut r = router();
    r.register(1);
    r.register(2);
    let reaped = r.reap_stale(u64::MAX);
    assert_eq!(reaped, 0);
    assert_eq!(r.tracked_requests(), 2);
}

fn phase_rank(p: &ThinkPhase) -> u8 {
    match p {
        ThinkPhase::Prefill => 0,
        ThinkPhase::ThinkDecode { .. } => 1,
        ThinkPhase::OutputDecode { .. } => 2,
        ThinkPhase::Complete => 3,
    }
}

/// Complete is absorbing and a phase never regresses, over many token
/// streams drawn from ids `0..=110`.
#[test]
fn phase_is_monotonic() {
    let mut seed: u64 = 0x9e37_79b9_7f4a_7c15;
    let mut next = move || {
        seed = seed.wrapping_mul(6_364_136_223_846_793_005).wrapping_add(1_442_695_040_888_963_407);
        seed >> 33
    };
    for _ in 0..256 {
        let len = 1 + (next() % 199) as usize;
        let mut r = router();
        r.register(0);
        let mut last_rank = 0u8;
        for _ in 0..len {
            let tok = (next() % 111) as u32;
            let _ = r.on_token(0, tok, None);
            let Some(phase) = r.phase_of(0) else { continue };
            let rank = phase_rank(&phase);
            assert!(rank >= last_rank, "phase regressed: rank {last_rank} -> {rank}");
            last_rank = rank;
            if last_rank == 3 {
                assert!(matches!(phase, ThinkPhase::Complete));
            }
        }
    }
}

// ---------------------------------------------------------------------------
// Further cases
// ---------------------------------------------------------------------------

#[test]
fn eos_in_prefill_completes_directly() {
    let mut r = router();
    r.register(8);
    assert_eq!(r.on_token(8, EOS, None), PhaseEvent::Complete);
    assert_eq!(r.phase_of(8), Some(ThinkPhase::Complete));
    assert_eq!(r.on_token(8, THINK_START, None), PhaseEvent::NoEvent);
}

#[test]
fn entropy_verdict_is_ignored_before_the_minimum_budget() {
    let mut r = entropy_router();
    r.register(9);
    r.on_token(9, THINK_START, None);
    // Tokens 1..=8 are not past min_think_tokens = 8.
    for _ in 0..8 {
        assert_eq!(r.on_token(9, NORMAL, Some(SETTLED)), PhaseEvent::NoEvent);
    }
    assert_eq!(
        r.on_token(9, NORMAL, Some(SETTLED)),
        PhaseEvent::ForceBudget {
            inject_token: THINK_END,
            reason: BudgetForceReason::Converged
        }
    );
}

#[test]
fn convergence_wins_over_overthinking() {
    let mut r = entropy_router();
    r.register(12);
    r.on_token(12, THINK_START, None);
    for _ in 0..20 {
        let _ = r.on_token(12, NORMAL, None);
    }
    let both = EntropyVerdict {
        eat_settled: true,
        rpdi_spiking: true,
    };
    assert_eq!(
        r.on_token(12, NORMAL, Some(both)),
        PhaseEvent::ForceBudget {
            inject_token: THINK_END,
            reason: BudgetForceReason::Converged
        }
    );
}

#[test]
fn exit_think_after_force_reports_all_tokens() {
    let mut r = router();
    r.register(13);
    r.on_token(13, THINK_START, None);
    for _ in 0..64 {
        let _ = r.on_token(13, NORMAL, None);
    }
    assert_eq!(
        r.on_token(13, THINK_END, None),
        PhaseEvent::ExitThink { tokens_used: 65 }
    );
    assert_eq!(
        r.phase_of(13),
        Some(ThinkPhase::OutputDecode { think_tokens_used: 65 })
    );
}

#[test]
fn touch_keeps_a_request_through_the_sweep() {
    let mut r = router();
    r.register(1);
    r.register(2);
    for _ in 0..20 {
        r.touch(99); // unknown id: no tick
    }
    r.touch(1);
    let reaped = r.reap_stale(1);
    assert_eq!(reaped, 1);
    assert_eq!(r.phase_of_kind(1), Some("prefill"));
    assert_eq!(r.phase_of_kind(2), None);
}

#[test]
fn default_config_budget() {
    let c = PhaseRouterConfig::default();
    assert_eq!(c.min_think_tokens, 512);
    assert_eq!(c.max_think_tokens, 32_768);
    assert!(c.think_start_ids.is_empty());
    let b = PhaseRouterConfig::with_boundary_ids(vec![1], vec![2], vec![3]);
    assert_eq!(b.think_end_ids, vec![2]);
    assert_eq!(b.max_think_tokens, 32_768);
    let r = PhaseRouter::new(b);
    assert_eq!(r.config().eos_ids, vec![3]);
}

#[test]
fn without_think_end_ids_the_budget_is_never_forced() {
    let mut r = PhaseRouter::new(PhaseRouterConfig {
        think_end_ids: Vec::new(),
        ..cfg()
    });
    r.register(1);
    assert_eq!(r.on_token(1, THINK_START, None), PhaseEvent::EnterThink);
    for _ in 0..100 {
        assert_eq!(r.on_token(1, NORMAL, Some(SETTLED)), PhaseEvent::NoEvent);
    }
    assert_eq!(
        r.phase_of(1),
        Some(ThinkPhase::ThinkDecode { tokens_so_far: 100, force_in_progress: false })
    );
    assert!(!r.step_is_blocked(1));
    assert_eq!(r.on_token(1, EOS, None), PhaseEvent::NoEvent, "EOS inside a think phase is a think token");
}
