//! Eviction policy of `PhaseAwareBlockManager`: tier ordering, LRU within a
//! tier, demotion on phase transition, MLA accounting, aggressive eviction,
//! and the memory-exhausted error.

use meridian::block_manager::{BlockManager, PhaseAwareBlockManager};
use meridian::error::Error;
use meridian::types::{BlockTier, MlaBlockConfig};

/// A manager sized for a known number of 16-byte blocks.
fn manager_with_blocks(n_blocks: u32, aggressive: bool) -> PhaseAwareBlockManager {
    let capacity = u64::from(n_blocks) * 16;
    PhaseAwareBlockManager::new_with_block_size(16, capacity, aggressive)
}

#[test]
fn allocate_assigns_unique_ids() {
    let mut mgr = manager_with_blocks(8, false);
    let a = mgr.allocate(1, BlockTier::ThinkActive, 3).unwrap();
    let b = mgr.allocate(2, BlockTier::ThinkActive, 3).unwrap();
    assert_eq!(a.len(), 3);
    assert_eq!(b.len(), 3);
    for id in &a {
        assert!(!b.contains(id), "block id {id} overlapped");
    }
    assert_eq!(mgr.used_bytes(), 6 * 16);
}

#[test]
fn free_releases_blocks_and_recycles_ids() {
    let mut mgr = manager_with_blocks(4, false);
    let _ = mgr.allocate(1, BlockTier::ThinkActive, 2).unwrap();
    mgr.free(1);
    assert_eq!(mgr.used_bytes(), 0);

    let reused = mgr.allocate(2, BlockTier::OutputCritical, 2).unwrap();
    assert_eq!(reused.len(), 2);
    assert_eq!(mgr.blocks_in_tier(BlockTier::OutputCritical), 2);
}

#[test]
fn free_is_idempotent() {
    let mut mgr = manager_with_blocks(4, false);
    let _ = mgr.allocate(7, BlockTier::ThinkActive, 2).unwrap();
    mgr.free(7);
    mgr.free(7);
    assert_eq!(mgr.used_bytes(), 0);
}

#[test]
fn demote_moves_think_active_to_think_complete() {
    let mut mgr = manager_with_blocks(8, false);
    let _ = mgr.allocate(1, BlockTier::ThinkActive, 3).unwrap();
    assert_eq!(mgr.blocks_in_tier(BlockTier::ThinkActive), 3);
    assert_eq!(mgr.blocks_in_tier(BlockTier::ThinkComplete), 0);

    mgr.demote_think_blocks(1);
    assert_eq!(mgr.blocks_in_tier(BlockTier::ThinkActive), 0);
    assert_eq!(mgr.blocks_in_tier(BlockTier::ThinkComplete), 3);
}

#[test]
fn aggressive_eviction_frees_demoted_blocks() {
    let mut mgr = manager_with_blocks(8, true);
    let _ = mgr.allocate(1, BlockTier::ThinkActive, 3).unwrap();
    assert_eq!(mgr.used_bytes(), 3 * 16);

    mgr.demote_think_blocks(1);
    assert_eq!(mgr.used_bytes(), 0);
    assert_eq!(mgr.blocks_in_tier(BlockTier::ThinkComplete), 0);
}

#[test]
fn evict_for_prefers_lower_tier() {
    let mut mgr = manager_with_blocks(6, false);
    let _ = mgr.allocate(1, BlockTier::ThinkActive, 2).unwrap();
    mgr.demote_think_blocks(1);
    let _ = mgr.allocate(2, BlockTier::ThinkActive, 2).unwrap();
    let _ = mgr.allocate(3, BlockTier::OutputCritical, 2).unwrap();
    assert_eq!(mgr.used_bytes(), 96);

    let freed = mgr.evict_for(32);
    assert_eq!(freed, 32);
    assert_eq!(mgr.blocks_in_tier(BlockTier::ThinkComplete), 0);
    assert_eq!(mgr.blocks_in_tier(BlockTier::ThinkActive), 2);
    assert_eq!(mgr.blocks_in_tier(BlockTier::OutputCritical), 2);
}

#[test]
fn evict_for_falls_through_tiers_under_pressure() {
    let mut mgr = manager_with_blocks(4, false);
    let _ = mgr.allocate(1, BlockTier::ThinkActive, 1).unwrap();
    mgr.demote_think_blocks(1);
    let _ = mgr.allocate(2, BlockTier::ThinkActive, 1).unwrap();
    let _ = mgr.allocate(3, BlockTier::OutputCritical, 1).unwrap();
    assert_eq!(mgr.used_bytes(), 48);

    let freed = mgr.evict_for(48);
    assert_eq!(freed, 48);
    assert_eq!(mgr.blocks_in_tier(BlockTier::ThinkComplete), 0);
    assert_eq!(mgr.blocks_in_tier(BlockTier::ThinkActive), 0);
    assert_eq!(mgr.blocks_in_tier(BlockTier::OutputCritical), 0);
}

#[test]
fn evict_for_lru_within_tier() {
    let mut mgr = manager_with_blocks(4, false);
    let a = mgr.allocate(1, BlockTier::ThinkActive, 1).unwrap()[0];
    let b = mgr.allocate(1, BlockTier::ThinkActive, 1).unwrap()[0];
    let c = mgr.allocate(1, BlockTier::ThinkActive, 1).unwrap()[0];

    mgr.demote_think_blocks(1);
    mgr.touch(a);
    mgr.touch(c);

    let freed = mgr.evict_for(16);
    assert_eq!(freed, 16);
    assert_eq!(mgr.blocks_in_tier(BlockTier::ThinkComplete), 2);
    assert!(!mgr.is_resident(b), "the least recently used block goes first");
    assert!(mgr.is_resident(a));
    assert!(mgr.is_resident(c));
}

#[test]
fn allocate_returns_memory_exhausted_when_no_eviction_possible() {
    let mut mgr = manager_with_blocks(2, false);
    let _ = mgr.allocate(1, BlockTier::OutputCritical, 2).unwrap();
    let err = mgr.allocate(2, BlockTier::ThinkActive, 5).unwrap_err();
    assert!(matches!(err, Error::KvMemoryExhausted { .. }), "got {err:?}");
}

#[test]
fn allocate_succeeds_after_evicting_completed_think_blocks() {
    let mut mgr = manager_with_blocks(4, false);
    let _ = mgr.allocate(1, BlockTier::ThinkActive, 4).unwrap();
    mgr.demote_think_blocks(1);
    assert_eq!(mgr.blocks_in_tier(BlockTier::ThinkComplete), 4);

    let ids = mgr.allocate(2, BlockTier::OutputCritical, 2).unwrap();
    assert_eq!(ids.len(), 2);
    assert_eq!(mgr.used_bytes(), 4 * 16);
    assert_eq!(mgr.blocks_in_tier(BlockTier::ThinkComplete), 2);
    assert_eq!(mgr.blocks_in_tier(BlockTier::OutputCritical), 2);
}

#[test]
fn mla_block_size_drives_accounting() {
    let mla = MlaBlockConfig {
        latent_dim: 512,
        bytes_per_element: 2,
        tokens_per_block: 16,
    };
    let block_bytes = mla.block_size_bytes();
    assert_eq!(block_bytes, 512 * 2 * 16);

    let mut mgr = PhaseAwareBlockManager::new_mla(mla, u64::from(block_bytes) * 4, false);
    assert_eq!(mgr.block_size_bytes(), block_bytes);

    let _ = mgr.allocate(1, BlockTier::ThinkActive, 2).unwrap();
    assert_eq!(mgr.used_bytes(), u64::from(block_bytes) * 2);
}

// ---------------------------------------------------------------------------
// Further cases
// ---------------------------------------------------------------------------

#[test]
fn exhausted_error_reports_needed_and_freed_bytes() {
    let mut mgr = manager_with_blocks(2, false);
    let _ = mgr.allocate(1, BlockTier::OutputCritical, 2).unwrap();
    match mgr.allocate(2, BlockTier::ThinkActive, 5) {
        Err(Error::KvMemoryExhausted { needed, freed }) => {
            assert_eq!(needed, 80);
            assert_eq!(freed, 32);
        }
        other => panic!("expected KvMemoryExhausted, got {other:?}"),
    }
    // Eviction ran before the refusal: the pool is empty.
    assert_eq!(mgr.used_bytes(), 0);
}

#[test]
fn freed_ids_are_reused_last_in_first_out() {
    let mut mgr = manager_with_blocks(8, false);
    let a = mgr.allocate(1, BlockTier::ThinkActive, 2).unwrap();
    assert_eq!(a, vec![0, 1]);
    mgr.free(1);
    let b = mgr.allocate(2, BlockTier::ThinkActive, 3).unwrap();
    assert_eq!(b, vec![1, 0, 2]);
}

#[test]
fn free_block_by_id_releases_one_block() {
    let mut mgr = manager_with_blocks(8, false);
    let ids = mgr.allocate(1, BlockTier::ThinkActive, 3).unwrap();
    assert!(mgr.free_block_by_id(ids[1]));
    assert!(!mgr.free_block_by_id(ids[1]), "a second release finds nothing");
    assert_eq!(mgr.used_bytes(), 2 * 16);
    let mut left = mgr.blocks_for_request(1);
    left.sort_unstable();
    assert_eq!(left, vec![ids[0], ids[2]]);
}

#[test]
fn available_bytes_is_capacity_minus_used() {
    let mut mgr = manager_with_blocks(8, false);
    assert_eq!(mgr.available_bytes(), 128);
    let _ = mgr.allocate(1, BlockTier::OutputCritical, 3).unwrap();
    assert_eq!(mgr.available_bytes(), 128 - 48);
    assert_eq!(mgr.capacity_bytes(), 128);
}

#[test]
fn evict_for_stops_when_nothing_is_left() {
    let mut mgr = manager_with_blocks(4, false);
    let _ = mgr.allocate(1, BlockTier::ThinkActive, 2).unwrap();
    assert_eq!(mgr.evict_for(1000), 32);
    assert_eq!(mgr.used_bytes(), 0);
    assert_eq!(mgr.evict_for(16), 0);
}

#[test]
fn evict_for_zero_frees_nothing() {
    let mut mgr = manager_with_blocks(4, false);
    let _ = mgr.allocate(1, BlockTier::ThinkActive, 2).unwrap();
    assert_eq!(mgr.evict_for(0), 0);
    assert_eq!(mgr.used_bytes(), 32);
}

#[test]
fn touch_of_unknown_block_changes_nothing() {
    let mut mgr = manager_with_blocks(4, false);
    let _ = mgr.allocate(1, BlockTier::ThinkActive, 1).unwrap();
    mgr.touch(99);
    assert_eq!(mgr.used_bytes(), 16);
    assert_eq!(mgr.blocks_in_tier(BlockTier::ThinkActive), 1);
}

#[test]
fn manager_without_fabric_refuses_disaggregation() {
    let mut mgr = manager_with_blocks(4, false);
    let ids = mgr.allocate(1, BlockTier::ThinkActive, 1).unwrap();
    assert!(matches!(mgr.offload_block(ids[0]), Err(Error::DisaggUnavailable)));
    assert!(matches!(
        mgr.ingest_block(vec![1, 2, 3], BlockTier::ThinkActive),
        Err(Error::DisaggUnavailable)
    ));
    assert!(matches!(
        mgr.block_location(ids[0]),
        meridian::types::BlockLocation::Local
    ));
    assert_eq!(mgr.used_bytes(), 16);
}

#[test]
fn demote_leaves_other_requests_alone() {
    let mut mgr = manager_with_blocks(8, false);
    let _ = mgr.allocate(1, BlockTier::ThinkActive, 2).unwrap();
    let _ = mgr.allocate(2, BlockTier::ThinkActive, 2).unwrap();
    let _ = mgr.allocate(1, BlockTier::OutputCritical, 1).unwrap();
    mgr.demote_think_blocks(1);
    assert_eq!(mgr.blocks_in_tier(BlockTier::ThinkComplete), 2);
    assert_eq!(mgr.blocks_in_tier(BlockTier::ThinkActive), 2);
    assert_eq!(mgr.blocks_in_tier(BlockTier::OutputCritical), 1);
}

#[test]
fn tier_labels_and_eviction_order() {
    assert_eq!(
        BlockTier::eviction_order(),
        [BlockTier::ThinkComplete, BlockTier::ThinkActive, BlockTier::OutputCritical]
    );
    assert_eq!(BlockTier::ThinkComplete.as_label(), "think_complete");
    assert_eq!(BlockTier::ThinkActive.as_label(), "think_active");
    assert_eq!(BlockTier::OutputCritical.as_label(), "output_critical");
    assert_eq!(BlockTier::OutputCritical.as_u8(), 2);
}

#[test]
fn tiers_only_move_toward_eviction() {
    let mut mgr = manager_with_blocks(8, false);
    let think = mgr.allocate(1, BlockTier::ThinkActive, 2).unwrap();
    let out = mgr.allocate(1, BlockTier::OutputCritical, 1).unwrap();
    mgr.touch(think[0]);
    mgr.touch(out[0]);
    assert_eq!(mgr.blocks_in_tier(BlockTier::ThinkActive), 2, "touch never changes a tier");
    assert_eq!(mgr.blocks_in_tier(BlockTier::OutputCritical), 1);
    mgr.demote_think_blocks(1);
    mgr.demote_think_blocks(1);
    assert_eq!(mgr.blocks_in_tier(BlockTier::ThinkComplete), 2);
    assert_eq!(mgr.blocks_in_tier(BlockTier::ThinkActive), 0);
    assert_eq!(mgr.blocks_in_tier(BlockTier::OutputCritical), 1, "output blocks are never demoted");
}

/// Accounting stays self-consistent under long pseudo-random operation
/// sequences: usage within capacity, one block's bytes per resident block,
/// every resident block in exactly one tier.
#[test]
fn invariants_hold_under_arbitrary_ops() {
    const BLOCK_BYTES: u32 = 16;
    const CAPACITY_BLOCKS: u64 = 32;
    let capacity = CAPACITY_BLOCKS * u64::from(BLOCK_BYTES);
    let mut seed: u64 = 0x2545_f491_4f6c_dd1d;
    let mut next = move |bound: u64| {
        seed ^= seed << 13;
        seed ^= seed >> 7;
        seed ^= seed << 17;
        seed % bound
    };
    let tiers = [BlockTier::ThinkComplete, BlockTier::ThinkActive, BlockTier::OutputCritical];
    for _ in 0..256 {
        let mut mgr = PhaseAwareBlockManager::new_with_block_size(BLOCK_BYTES, capacity, false);
        let mut live: Vec<u32> = Vec::new();
        let n_ops = next(60);
        for _ in 0..n_ops {
            match next(5) {
                0 => {
                    let req = next(6);
                    let tier = tiers[next(3) as usize];
                    let n = 1 + next(5) as u32;
                    if let Ok(ids) = mgr.allocate(req, tier, n) {
                        // Ids evicted to make room may come straight back.
                        live.retain(|id| !ids.contains(id));
                        live.extend(ids);
                    }
                }
                1 => {
                    mgr.free(next(6));
                    live.retain(|id| mgr.is_resident(*id));
                }
                2 => {
                    if !live.is_empty() {
                        let id = live[next(40) as usize % live.len()];
                        let was_resident = mgr.is_resident(id);
                        assert_eq!(mgr.free_block_by_id(id), was_resident);
                        live.retain(|x| mgr.is_resident(*x));
                    }
                }
                3 => mgr.demote_think_blocks(next(6)),
                _ => {
                    let freed = mgr.evict_for(next(capacity));
                    assert!(freed <= capacity);
                    live.retain(|id| mgr.is_resident(*id));
                }
            }
            assert!(mgr.used_bytes() <= mgr.capacity_bytes());
            let live_count = live.iter().filter(|id| mgr.is_resident(**id)).count() as u64;
            assert_eq!(mgr.used_bytes(), live_count * u64::from(BLOCK_BYTES));
            let tier_total: usize = tiers.iter().map(|t| mgr.blocks_in_tier(*t)).sum();
            assert_eq!(tier_total as u64, live_count);
        }
    }
}

#[test]
fn a_touched_block_is_evicted_last_in_its_tier() {
    let mut mgr = manager_with_blocks(8, false);
    let ids = mgr.allocate(1, BlockTier::ThinkActive, 3).unwrap();
    mgr.touch(ids[0]);
    assert_eq!(mgr.evict_for(32), 32);
    assert!(mgr.is_resident(ids[0]));
    assert!(!mgr.is_resident(ids[1]));
    assert!(!mgr.is_resident(ids[2]));
}

#[test]
fn warning_condition_tracks_the_lower_tiers() {
    let mut mgr = manager_with_blocks(8, false);
    let _ = mgr.allocate(1, BlockTier::ThinkActive, 2).unwrap();
    let _ = mgr.allocate(2, BlockTier::OutputCritical, 2).unwrap();
    assert!(!mgr.eviction_reaches_output_critical(0));
    assert!(!mgr.eviction_reaches_output_critical(32));
    assert!(mgr.eviction_reaches_output_critical(33));
}
