//! Three-tier phase-aware KV block manager.
//!
//! Blocks live in one of three tiers and eviction walks them in order:
//! `ThinkComplete`, then `ThinkActive`, then `OutputCritical`. Inside a tier
//! the least recently accessed block goes first (ties broken by block id).
//!
//! The pool is an arena indexed by block id: slot `i` holds block `i` while it
//! is resident. Ids of released blocks are kept on a LIFO free list and are
//! reused before any new id is minted.

use vstd::prelude::*;

use crate::error::{Error, Result};
use crate::types::{tier_rank, BlockLocation, BlockTier, KvBlock, MlaBlockConfig};

verus! {

// ---------------------------------------------------------------------------
// Eviction order
// ---------------------------------------------------------------------------

/// `a` is evicted before `b`: lower tier first, then older access, then lower id.
pub open spec fn evicts_before(a: KvBlock, b: KvBlock) -> bool {
    ||| tier_rank(a.tier) < tier_rank(b.tier)
    ||| (tier_rank(a.tier) == tier_rank(b.tier) && a.last_access_ns < b.last_access_ns)
    ||| (tier_rank(a.tier) == tier_rank(b.tier) && a.last_access_ns == b.last_access_ns
        && a.block_id < b.block_id)
}

/// `id` is resident in `blocks` and is evicted before every other resident block.
pub open spec fn is_next_victim(blocks: Map<u32, KvBlock>, id: u32) -> bool {
    &&& blocks.dom().contains(id)
    &&& forall|o: u32| #[trigger]
        blocks.dom().contains(o) && o != id ==> evicts_before(blocks[id], blocks[o])
}

/// The block the eviction policy takes next from `blocks`.
pub open spec fn next_victim(blocks: Map<u32, KvBlock>) -> u32 {
    choose|id: u32| is_next_victim(blocks, id)
}

/// Every resident block is stored under its own id.
pub open spec fn keyed_by_id(blocks: Map<u32, KvBlock>) -> bool {
    forall|id: u32| #[trigger] blocks.dom().contains(id) ==> blocks[id].block_id == id
}

/// The ids the eviction policy releases, in order, when asked to free
/// `remaining` bytes from `blocks` where every block is `block_size` bytes:
/// it keeps taking the next victim while the freed total is short of the
/// request and blocks remain.
pub open spec fn eviction_sequence(blocks: Map<u32, KvBlock>, remaining: int, block_size: nat) -> Seq<u32>
    decreases blocks.dom().len(),
    when blocks.dom().finite()
{
    let v = next_victim(blocks);
    if remaining <= 0 || !blocks.dom().contains(v) {
        Seq::empty()
    } else {
        seq![v] + eviction_sequence(blocks.remove(v), remaining - block_size, block_size)
    }
}

/// No block that is resident before and after a change sits in a higher tier
/// after it: tiers move only toward eviction, and a block keeps its owner.
pub open spec fn tiers_never_rise(before: Map<u32, KvBlock>, after: Map<u32, KvBlock>) -> bool {
    forall|id: u32| #[trigger] after.contains_key(id) && before.contains_key(id) ==> {
        &&& tier_rank(after[id].tier) <= tier_rank(before[id].tier)
        &&& after[id].req_id == before[id].req_id
    }
}

/// `s` is strictly increasing.
pub open spec fn ascending(s: Seq<u32>) -> bool {
    forall|i: int, j: int| 0 <= i < j < s.len() ==> s[i] < s[j]
}

/// Id handed out for the `i`-th block of an allocation, given the free list
/// and the next never-used id at the start of the allocation: ids are popped
/// from the end of the free list first, then fresh ids are minted in order.
pub open spec fn assigned_id(free: Seq<u32>, next: nat, i: int) -> u32 {
    if i < free.len() {
        free[free.len() - 1 - i]
    } else {
        (next + (i - free.len())) as u32
    }
}

/// Logical clock value `i` ticks after `clock`; the clock saturates at `u64::MAX`.
pub open spec fn stamp(clock: nat, i: int) -> u64 {
    if clock + i <= u64::MAX {
        (clock + i) as u64
    } else {
        u64::MAX
    }
}

/// The `i`-th block of an allocation for `req_id` in `tier`.
pub open spec fn allocated_block(id: u32, req_id: u64, tier: BlockTier, i: int, size: u32, ts: u64) -> KvBlock {
    KvBlock {
        block_id: id,
        req_id: req_id,
        tier: tier,
        token_range: core::ops::Range { start: i as u32, end: (i + 1) as u32 },
        size_bytes: size,
        last_access_ns: ts,
    }
}

/// `b` with its tier changed to `t`.
pub open spec fn retiered(b: KvBlock, t: BlockTier) -> KvBlock {
    KvBlock {
        block_id: b.block_id,
        req_id: b.req_id,
        tier: t,
        token_range: b.token_range,
        size_bytes: b.size_bytes,
        last_access_ns: b.last_access_ns,
    }
}

/// `b` with its access time set to `ts`.
pub open spec fn accessed_at(b: KvBlock, ts: u64) -> KvBlock {
    KvBlock {
        block_id: b.block_id,
        req_id: b.req_id,
        tier: b.tier,
        token_range: b.token_range,
        size_bytes: b.size_bytes,
        last_access_ns: ts,
    }
}

// ---------------------------------------------------------------------------
// Counting occupied slots
// ---------------------------------------------------------------------------

spec fn slot_matches(o: Option<KvBlock>, p: spec_fn(KvBlock) -> bool) -> bool {
    o is Some && p(o.unwrap())
}

spec fn count_slots(s: Seq<Option<KvBlock>>, p: spec_fn(KvBlock) -> bool) -> nat
    decreases s.len(),
{
    if s.len() == 0 {
        0
    } else {
        count_slots(s.drop_last(), p) + if slot_matches(s.last(), p) { 1nat } else { 0nat }
    }
}

spec fn slot_set(s: Seq<Option<KvBlock>>, p: spec_fn(KvBlock) -> bool) -> Set<u32> {
    Set::new(|id: u32| (id as int) < s.len() && slot_matches(s[id as int], p))
}

spec fn any_block() -> spec_fn(KvBlock) -> bool {
    |b: KvBlock| true
}

spec fn in_tier(t: BlockTier) -> spec_fn(KvBlock) -> bool {
    |b: KvBlock| b.tier == t
}

proof fn lemma_slot_set(s: Seq<Option<KvBlock>>, p: spec_fn(KvBlock) -> bool)
    requires
        s.len() <= u32::MAX + 1,
    ensures
        slot_set(s, p).finite(),
        slot_set(s, p).len() == count_slots(s, p),
    decreases s.len(),
{
    if s.len() == 0 {
        assert(slot_set(s, p) =~= Set::empty());
    } else {
        let t = s.drop_last();
        lemma_slot_set(t, p);
        let last = (s.len() - 1) as u32;
        if slot_matches(s.last(), p) {
            assert(slot_set(s, p) =~= slot_set(t, p).insert(last));
            assert(!slot_set(t, p).contains(last));
        } else {
            assert(slot_set(s, p) =~= slot_set(t, p));
        }
    }
}

proof fn lemma_count_update(s: Seq<Option<KvBlock>>, i: int, x: Option<KvBlock>, p: spec_fn(KvBlock) -> bool)
    requires
        0 <= i < s.len(),
    ensures
        count_slots(s.update(i, x), p) + (if slot_matches(s[i], p) { 1int } else { 0int })
            == count_slots(s, p) + (if slot_matches(x, p) { 1int } else { 0int }),
    decreases s.len(),
{
    let u = s.update(i, x);
    if i == s.len() - 1 {
        assert(u.drop_last() =~= s.drop_last());
    } else {
        assert(u.drop_last() =~= s.drop_last().update(i, x));
        lemma_count_update(s.drop_last(), i, x, p);
    }
}

proof fn lemma_count_push(s: Seq<Option<KvBlock>>, x: Option<KvBlock>, p: spec_fn(KvBlock) -> bool)
    ensures
        count_slots(s.push(x), p) == count_slots(s, p) + (if slot_matches(x, p) { 1nat } else { 0nat }),
{
    assert(s.push(x).drop_last() =~= s);
}

proof fn lemma_count_take(s: Seq<Option<KvBlock>>, k: int, p: spec_fn(KvBlock) -> bool)
    requires
        0 <= k < s.len(),
    ensures
        count_slots(s.take(k + 1), p) == count_slots(s.take(k), p) + (if slot_matches(s[k], p) { 1nat } else { 0nat }),
{
    assert(s.take(k + 1).drop_last() =~= s.take(k));
}

proof fn lemma_count_positive(s: Seq<Option<KvBlock>>, i: int, p: spec_fn(KvBlock) -> bool)
    requires
        0 <= i < s.len(),
        slot_matches(s[i], p),
    ensures
        count_slots(s, p) >= 1,
    decreases s.len(),
{
    if i < s.len() - 1 {
        lemma_count_positive(s.drop_last(), i, p);
    }
}

// ---------------------------------------------------------------------------
// Facts about the eviction sequence
// ---------------------------------------------------------------------------

proof fn lemma_victim_unique(blocks: Map<u32, KvBlock>, a: u32, b: u32)
    requires
        is_next_victim(blocks, a),
        is_next_victim(blocks, b),
    ensures
        a == b,
{
    if a != b {
        assert(blocks.dom().contains(b));
        assert(evicts_before(blocks[a], blocks[b]));
        assert(evicts_before(blocks[b], blocks[a]));
    }
}

proof fn lemma_victim_is_next(blocks: Map<u32, KvBlock>, a: u32)
    requires
        is_next_victim(blocks, a),
    ensures
        next_victim(blocks) == a,
{
    lemma_victim_unique(blocks, a, next_victim(blocks));
}

proof fn lemma_victim_exists(blocks: Map<u32, KvBlock>)
    requires
        blocks.dom().finite(),
        blocks.dom().len() > 0,
        keyed_by_id(blocks),
    ensures
        is_next_victim(blocks, next_victim(blocks)),
    decreases blocks.dom().len(),
{
    let k = blocks.dom().choose();
    let rest = blocks.remove(k);
    if rest.dom().len() == 0 {
        assert forall|o: u32| #[trigger] blocks.dom().contains(o) && o != k implies evicts_before(blocks[k], blocks[o]) by {
            assert(rest.dom().contains(o));
        }
        assert(is_next_victim(blocks, k));
    } else {
        lemma_victim_exists(rest);
        let v = next_victim(rest);
        if evicts_before(blocks[k], blocks[v]) {
            assert forall|o: u32| #[trigger] blocks.dom().contains(o) && o != k implies evicts_before(blocks[k], blocks[o]) by {
                if o != v {
                    assert(rest.dom().contains(o));
                    assert(evicts_before(rest[v], rest[o]));
                }
            }
            assert(is_next_victim(blocks, k));
        } else {
            assert(blocks[k].block_id != blocks[v].block_id);
            assert forall|o: u32| #[trigger] blocks.dom().contains(o) && o != v implies evicts_before(blocks[v], blocks[o]) by {
                if o != k {
                    assert(rest.dom().contains(o));
                }
            }
            assert(is_next_victim(blocks, v));
        }
    }
}

/// Facts about what eviction takes: it releases distinct resident blocks,
/// stops once enough bytes are freed, and otherwise takes every block.
pub proof fn lemma_eviction_sequence(blocks: Map<u32, KvBlock>, remaining: int, block_size: nat)
    requires
        blocks.dom().finite(),
        keyed_by_id(blocks),
    ensures
        ({
            let ev = eviction_sequence(blocks, remaining, block_size);
            &&& ev.no_duplicates()
            &&& forall|i: int| 0 <= i < ev.len() ==> blocks.dom().contains(#[trigger] ev[i])
            &&& ev.len() <= blocks.dom().len()
            &&& ev.len() * block_size >= remaining || ev.len() == blocks.dom().len()
            &&& remaining <= 0 ==> ev.len() == 0
            &&& ev.len() > 0 ==> (ev.len() - 1) * block_size < remaining
        }),
    decreases blocks.dom().len(),
{
    let ev = eviction_sequence(blocks, remaining, block_size);
    let v = next_victim(blocks);
    if remaining <= 0 || !blocks.dom().contains(v) {
        if remaining > 0 && blocks.dom().len() > 0 {
            lemma_victim_exists(blocks);
        }
    } else {
        let rest = blocks.remove(v);
        assert(keyed_by_id(rest));
        lemma_eviction_sequence(rest, remaining - block_size, block_size);
        let tail = eviction_sequence(rest, remaining - block_size, block_size);
        assert(ev == seq![v] + tail);
        assert forall|i: int| 0 <= i < ev.len() implies blocks.dom().contains(#[trigger] ev[i]) by {
            if i > 0 {
                assert(ev[i] == tail[i - 1]);
                assert(rest.dom().contains(tail[i - 1]));
            }
        }
        assert forall|i: int, j: int| 0 <= i < ev.len() && 0 <= j < ev.len() && i != j implies ev[i] != ev[j] by {
            if i > 0 && j > 0 {
                assert(ev[i] == tail[i - 1]);
                assert(ev[j] == tail[j - 1]);
            } else if i == 0 {
                assert(ev[j] == tail[j - 1]);
                assert(rest.dom().contains(tail[j - 1]));
            } else {
                assert(ev[i] == tail[i - 1]);
                assert(rest.dom().contains(tail[i - 1]));
            }
        }
        assert(ev.len() == tail.len() + 1);
        assert(ev.len() * block_size == tail.len() * block_size + block_size) by (nonlinear_arith)
            requires ev.len() == tail.len() + 1;
        if tail.len() > 0 {
            assert((ev.len() - 1) * block_size == (tail.len() - 1) * block_size + block_size) by (nonlinear_arith)
                requires ev.len() == tail.len() + 1, tail.len() > 0;
        }
    }
}

/// The eviction order on two blocks, stated on their fields: a block of a
/// lower tier goes before any block of a higher tier, and inside every tier
/// (`OutputCritical` included) the block accessed longer ago goes first.
pub proof fn lemma_tier_then_lru(a: KvBlock, b: KvBlock)
    ensures
        tier_rank(a.tier) < tier_rank(b.tier) ==> evicts_before(a, b) && !evicts_before(b, a),
        a.tier == b.tier && a.last_access_ns < b.last_access_ns ==> evicts_before(a, b) && !evicts_before(b, a),
{
}

/// What eviction takes, stated on the blocks' fields: no block it releases
/// sits in a higher tier than a block that stays, and inside a tier no block
/// it releases was accessed more recently than one that stays; the same holds
/// between a block it releases and every block it releases after it.
pub proof fn lemma_eviction_takes_least_recent_first(blocks: Map<u32, KvBlock>, remaining: int, block_size: nat)
    requires
        blocks.dom().finite(),
        keyed_by_id(blocks),
    ensures
        ({
            let ev = eviction_sequence(blocks, remaining, block_size);
            &&& forall|i: int, o: u32| 0 <= i < ev.len() && blocks.dom().contains(o) && !ev.contains(o) ==> {
                &&& tier_rank(blocks[#[trigger] ev[i]].tier) <= tier_rank(#[trigger] blocks[o].tier)
                &&& blocks[ev[i]].tier == blocks[o].tier ==> blocks[ev[i]].last_access_ns <= blocks[o].last_access_ns
            }
            &&& forall|i: int, j: int| 0 <= i < j < ev.len() ==> {
                &&& tier_rank(blocks[#[trigger] ev[i]].tier) <= tier_rank(blocks[#[trigger] ev[j]].tier)
                &&& blocks[ev[i]].tier == blocks[ev[j]].tier ==> blocks[ev[i]].last_access_ns <= blocks[ev[j]].last_access_ns
            }
        }),
{
    lemma_eviction_order(blocks, remaining, block_size);
    let ev = eviction_sequence(blocks, remaining, block_size);
    assert forall|i: int, o: u32| 0 <= i < ev.len() && blocks.dom().contains(o) && !ev.contains(o) implies {
        &&& tier_rank(blocks[#[trigger] ev[i]].tier) <= tier_rank(#[trigger] blocks[o].tier)
        &&& blocks[ev[i]].tier == blocks[o].tier ==> blocks[ev[i]].last_access_ns <= blocks[o].last_access_ns
    } by {
        assert(evicts_before(blocks[ev[i]], blocks[o]));
    }
    assert forall|i: int, j: int| 0 <= i < j < ev.len() implies {
        &&& tier_rank(blocks[#[trigger] ev[i]].tier) <= tier_rank(blocks[#[trigger] ev[j]].tier)
        &&& blocks[ev[i]].tier == blocks[ev[j]].tier ==> blocks[ev[i]].last_access_ns <= blocks[ev[j]].last_access_ns
    } by {
        assert(evicts_before(blocks[ev[i]], blocks[ev[j]]));
    }
}

/// Eviction follows the tier order and, inside a tier, LRU: each released
/// block is evicted before every block released after it and before every
/// block that stays resident.
pub proof fn lemma_eviction_order(blocks: Map<u32, KvBlock>, remaining: int, block_size: nat)
    requires
        blocks.dom().finite(),
        keyed_by_id(blocks),
    ensures
        ({
            let ev = eviction_sequence(blocks, remaining, block_size);
            &&& forall|i: int, j: int| 0 <= i < j < ev.len() ==> evicts_before(blocks[ev[i]], blocks[ev[j]])
            &&& forall|i: int, o: u32| 0 <= i < ev.len() && blocks.dom().contains(o) && !ev.contains(o)
                ==> evicts_before(blocks[#[trigger] ev[i]], #[trigger] blocks[o])
        }),
    decreases blocks.dom().len(),
{
    let ev = eviction_sequence(blocks, remaining, block_size);
    let v = next_victim(blocks);
    if remaining <= 0 || !blocks.dom().contains(v) {
    } else {
        lemma_victim_exists(blocks);
        let rest = blocks.remove(v);
        assert(keyed_by_id(rest));
        lemma_eviction_order(rest, remaining - block_size, block_size);
        lemma_eviction_sequence(rest, remaining - block_size, block_size);
        let tail = eviction_sequence(rest, remaining - block_size, block_size);
        assert(ev == seq![v] + tail);
        assert forall|i: int, j: int| 0 <= i < j < ev.len() implies evicts_before(blocks[ev[i]], blocks[ev[j]]) by {
            assert(ev[j] == tail[j - 1]);
            assert(rest.dom().contains(tail[j - 1]));
            if i > 0 {
                assert(ev[i] == tail[i - 1]);
                assert(rest.dom().contains(tail[i - 1]));
            }
        }
        assert forall|i: int, o: u32| 0 <= i < ev.len() && blocks.dom().contains(o) && !ev.contains(o)
            implies evicts_before(blocks[#[trigger] ev[i]], #[trigger] blocks[o]) by {
            assert(o != v) by {
                assert(ev[0] == v);
            }
            assert(rest.dom().contains(o));
            if i > 0 {
                assert(ev[i] == tail[i - 1]);
                assert(!tail.contains(o)) by {
                    if tail.contains(o) {
                        let k = choose|k: int| 0 <= k < tail.len() && tail[k] == o;
                        assert(ev[k + 1] == o);
                    }
                }
                assert(rest.dom().contains(tail[i - 1]));
            }
        }
    }
}

// ---------------------------------------------------------------------------
// The block manager
// ---------------------------------------------------------------------------

/// Operations every KV block manager supports.
pub trait BlockManager: Sized {
    /// The manager's internal invariant.
    spec fn inv(&self) -> bool;

    /// An allocation of `n_blocks` stays within the id space.
    spec fn allocation_ok(&self, n_blocks: u32) -> bool;

    /// Bytes currently allocated.
    spec fn used_total(&self) -> nat;

    /// Byte budget.
    spec fn capacity_total(&self) -> nat;

    /// Allocate `n_blocks` blocks for `req_id` in `tier` and return their ids
    /// in allocation order, or [`Error::KvMemoryExhausted`] when memory
    /// pressure cannot be relieved.
    fn allocate(&mut self, req_id: u64, tier: BlockTier, n_blocks: u32) -> (r: Result<Vec<u32>>)
        requires
            old(self).inv(),
            old(self).allocation_ok(n_blocks),
        ensures
            final(self).inv(),
    ;

    /// Release every block belonging to `req_id`. Idempotent.
    fn free(&mut self, req_id: u64)
        requires
            old(self).inv(),
        ensures
            final(self).inv(),
    ;

    /// Demote every `ThinkActive` block of `req_id` to `ThinkComplete`.
    fn demote_think_blocks(&mut self, req_id: u64)
        requires
            old(self).inv(),
        ensures
            final(self).inv(),
    ;

    /// Evict blocks, lowest tier first, until at least `needed_bytes` have
    /// been freed or none is left; returns the bytes freed.
    fn evict_for(&mut self, needed_bytes: u64) -> (freed: u64)
        requires
            old(self).inv(),
        ensures
            final(self).inv(),
    ;

    /// Refresh the access time of `block_id` inside its tier.
    fn touch(&mut self, block_id: u32)
        requires
            old(self).inv(),
        ensures
            final(self).inv(),
    ;

    /// Release a single block by id; `true` if it was resident.
    fn free_block_by_id(&mut self, block_id: u32) -> (present: bool)
        requires
            old(self).inv(),
        ensures
            final(self).inv(),
    ;

    /// Ids of the blocks currently owned by `req_id`.
    fn blocks_for_request(&self, req_id: u64) -> (ids: Vec<u32>)
        requires
            self.inv(),
    ;

    /// Bytes currently allocated across all tiers.
    fn used_bytes(&self) -> (used: u64)
        requires
            self.inv(),
        ensures
            used == self.used_total(),
    ;

    /// Total budget in bytes.
    fn capacity_bytes(&self) -> (capacity: u64)
        requires
            self.inv(),
        ensures
            capacity == self.capacity_total(),
    ;

    /// Bytes available without eviction.
    fn available_bytes(&self) -> (available: u64)
        requires
            self.inv(),
        ensures
            available == (if self.capacity_total() >= self.used_total() {
                self.capacity_total() - self.used_total()
            } else {
                0
            }),
    {
        self.capacity_bytes().saturating_sub(self.used_bytes())
    }

    /// Serialise `block_id` to a transferable payload and drop it from the
    /// local pool. A manager without a fabric answers
    /// [`Error::DisaggUnavailable`] and changes nothing.
    fn offload_block(&mut self, block_id: u32) -> (r: Result<Vec<u8>>)
        requires
            old(self).inv(),
        ensures
            final(self).inv(),
        default_ensures
            r matches Err(e) && e is DisaggUnavailable,
            *final(self) == *old(self),
    {
        Err(Error::DisaggUnavailable)
    }

    /// Reconstitute a block from a remote payload into `tier` and return its
    /// local id. A manager without a fabric answers
    /// [`Error::DisaggUnavailable`] and changes nothing.
    fn ingest_block(&mut self, payload: Vec<u8>, tier: BlockTier) -> (r: Result<u32>)
        requires
            old(self).inv(),
            old(self).allocation_ok(1),
        ensures
            final(self).inv(),
        default_ensures
            r matches Err(e) && e is DisaggUnavailable,
            *final(self) == *old(self),
    {
        Err(Error::DisaggUnavailable)
    }

    /// Where the given block lives. A manager without a fabric reports every
    /// id as local.
    fn block_location(&self, block_id: u32) -> (loc: BlockLocation)
        requires
            self.inv(),
        default_ensures
            loc == BlockLocation::Local,
    {
        BlockLocation::Local
    }
}

/// Concrete in-memory three-tier block manager.
#[derive(Debug)]
pub struct PhaseAwareBlockManager {
    /// Slot `i` holds block `i` while it is resident.
    slots: Vec<Option<KvBlock>>,
    /// Ids of released blocks, reused last-in first-out.
    free_list: Vec<u32>,
    used_bytes: u64,
    capacity_bytes: u64,
    block_size_bytes: u32,
    /// When set, demoted think blocks are freed instead of re-tiered.
    aggressive_think_eviction: bool,
    /// Logical clock used to time-stamp accesses.
    clock: u64,
}

impl PhaseAwareBlockManager {
    /// Evicting for `needed_bytes` took the policy's victims, freed `freed` bytes, and queued the victims' ids for reuse.
    pub open spec fn evict_effect(pre: PhaseAwareBlockManager, post: PhaseAwareBlockManager, needed_bytes: u64, freed: u64) -> bool {
        &&& ({
            let ev = pre.eviction_for(needed_bytes as int);
            &&& freed == ev.len() * pre.block_size()
            &&& post.blocks() == pre.blocks().remove_keys(ev.to_set())
            &&& post.free_ids() == pre.free_ids() + ev
            &&& post.used() == pre.used() - freed
        })
        &&& tiers_never_rise(pre.blocks(), post.blocks())
        &&& post.next_block_id() == pre.next_block_id()
        &&& post.capacity() == pre.capacity()
        &&& post.block_size() == pre.block_size()
        &&& post.aggressive() == pre.aggressive()
        &&& post.clock() == pre.clock()
    }

    /// Touching `block_id` re-stamped it with the clock (and advanced the clock); an unknown id changed nothing.
    pub open spec fn touch_effect(pre: PhaseAwareBlockManager, post: PhaseAwareBlockManager, block_id: u32) -> bool {
        &&& (pre.blocks().dom().contains(block_id) ==> {
            &&& post.blocks() == pre.blocks().insert(
                block_id,
                accessed_at(pre.blocks()[block_id], pre.clock() as u64),
            )
            &&& post.clock() == stamp(pre.clock(), 1)
            &&& forall|o: u32| #[trigger] post.blocks().dom().contains(o) ==>
                post.blocks()[o].last_access_ns <= post.blocks()[block_id].last_access_ns
            &&& pre.clock() < u64::MAX ==> forall|o: u32| #[trigger] post.blocks().dom().contains(o) && o != block_id
                ==> post.blocks()[o].last_access_ns < post.blocks()[block_id].last_access_ns
        })
        &&& (!pre.blocks().dom().contains(block_id) ==> {
            &&& post.blocks() == pre.blocks()
            &&& post.clock() == pre.clock()
        })
        &&& tiers_never_rise(pre.blocks(), post.blocks())
        &&& post.free_ids() == pre.free_ids()
        &&& post.next_block_id() == pre.next_block_id()
        &&& post.used() == pre.used()
        &&& post.capacity() == pre.capacity()
        &&& post.block_size() == pre.block_size()
        &&& post.aggressive() == pre.aggressive()
    }

    /// Releasing `block_id` freed it and queued its id for reuse when it was resident, and changed nothing otherwise.
    pub open spec fn release_effect(pre: PhaseAwareBlockManager, post: PhaseAwareBlockManager, block_id: u32, present: bool) -> bool {
        &&& present == pre.blocks().dom().contains(block_id)
        &&& (present ==> {
            &&& post.blocks() == pre.blocks().remove(block_id)
            &&& post.free_ids() == pre.free_ids().push(block_id)
            &&& post.used() == pre.used() - pre.block_size()
        })
        &&& (!present ==> {
            &&& post.blocks() == pre.blocks()
            &&& post.free_ids() == pre.free_ids()
            &&& post.used() == pre.used()
        })
        &&& tiers_never_rise(pre.blocks(), post.blocks())
        &&& post.next_block_id() == pre.next_block_id()
        &&& post.capacity() == pre.capacity()
        &&& post.block_size() == pre.block_size()
        &&& post.aggressive() == pre.aggressive()
        &&& post.clock() == pre.clock()
    }

    /// Freeing `req_id` released all its blocks, queuing their ids in ascending order.
    pub open spec fn free_effect(pre: PhaseAwareBlockManager, post: PhaseAwareBlockManager, req_id: u64) -> bool {
        &&& ({
            let released = post.free_ids().skip(pre.free_ids().len() as int);
            &&& post.free_ids() == pre.free_ids() + released
            &&& ascending(released)
            &&& released.to_set() == pre.request_ids(req_id)
            &&& post.blocks() == pre.blocks().remove_keys(pre.request_ids(req_id))
            &&& post.used() == pre.used() - released.len() * pre.block_size()
        })
        &&& tiers_never_rise(pre.blocks(), post.blocks())
        &&& post.next_block_id() == pre.next_block_id()
        &&& post.capacity() == pre.capacity()
        &&& post.block_size() == pre.block_size()
        &&& post.aggressive() == pre.aggressive()
        &&& post.clock() == pre.clock()
    }

    /// Demoting `req_id` moved its think-active blocks to `ThinkComplete`, or released them in aggressive mode.
    pub open spec fn demote_effect(pre: PhaseAwareBlockManager, post: PhaseAwareBlockManager, req_id: u64) -> bool {
        &&& (pre.aggressive() ==> ({
            let released = post.free_ids().skip(pre.free_ids().len() as int);
            &&& post.free_ids() == pre.free_ids() + released
            &&& ascending(released)
            &&& released.to_set() == pre.think_active_ids(req_id)
            &&& post.blocks() == pre.blocks().remove_keys(pre.think_active_ids(req_id))
            &&& post.used() == pre.used() - released.len() * pre.block_size()
        }))
        &&& (!pre.aggressive() ==> {
            &&& post.blocks().dom() == pre.blocks().dom()
            &&& forall|id: u32| #[trigger] post.blocks().dom().contains(id) ==>
                post.blocks()[id] == if pre.think_active_ids(req_id).contains(id) {
                    retiered(pre.blocks()[id], BlockTier::ThinkComplete)
                } else {
                    pre.blocks()[id]
                }
            &&& post.free_ids() == pre.free_ids()
            &&& post.used() == pre.used()
        })
        &&& tiers_never_rise(pre.blocks(), post.blocks())
        &&& post.next_block_id() == pre.next_block_id()
        &&& post.capacity() == pre.capacity()
        &&& post.block_size() == pre.block_size()
        &&& post.aggressive() == pre.aggressive()
        &&& post.clock() == pre.clock()
    }

    /// Allocating `n_blocks` blocks for `req_id` in `tier` evicted for any deficit first, then either refused for lack of memory or installed the blocks under the ids the free list and the id counter give.
    pub open spec fn allocate_effect(pre: PhaseAwareBlockManager, post: PhaseAwareBlockManager, req_id: u64, tier: BlockTier, n_blocks: u32, r: Result<Vec<u32>>) -> bool {
        &&& ({
            let needed = n_blocks * pre.block_size();
            let reclaim = pre.reclaim_for(n_blocks);
            let mid_free = pre.free_ids() + reclaim;
            let mid_blocks = pre.blocks().remove_keys(reclaim.to_set());
            let mid_used = pre.used() - reclaim.len() * pre.block_size();
            let fl = mid_free.len();
            &&& (r is Ok <==> needed <= pre.capacity())
            &&& (r matches Err(e) ==> {
                &&& e == Error::KvMemoryExhausted {
                    needed: needed as u64,
                    freed: (reclaim.len() * pre.block_size()) as u64,
                }
                &&& post.blocks() == mid_blocks
                &&& post.free_ids() == mid_free
                &&& post.used() == mid_used
                &&& post.next_block_id() == pre.next_block_id()
                &&& post.clock() == pre.clock()
            })
            &&& (r matches Ok(ids) ==> {
                &&& ids@.len() == n_blocks
                &&& ids@.no_duplicates()
                &&& forall|i: int| 0 <= i < n_blocks ==> !mid_blocks.dom().contains(#[trigger] ids@[i])
                &&& forall|i: int| 0 <= i < n_blocks ==>
                    #[trigger] ids@[i] == assigned_id(mid_free, pre.next_block_id(), i)
                &&& forall|i: int| 0 <= i < n_blocks ==>
                    post.blocks()[#[trigger] ids@[i]] == allocated_block(
                        ids@[i], req_id, tier, i, pre.block_size() as u32, stamp(pre.clock(), i))
                &&& post.blocks().dom() == mid_blocks.dom() + ids@.to_set()
                &&& forall|id: u32| #[trigger] mid_blocks.dom().contains(id) ==>
                    post.blocks()[id] == mid_blocks[id]
                &&& post.free_ids() == mid_free.take(if n_blocks < fl { fl - n_blocks } else { 0 })
                &&& post.next_block_id() == pre.next_block_id()
                    + (if n_blocks > fl { n_blocks - fl } else { 0 })
                &&& post.used() == mid_used + needed
                &&& post.clock() == stamp(pre.clock(), n_blocks as int)
            })
        })
        &&& (r is Err ==> tiers_never_rise(pre.blocks(), post.blocks()))
        &&& (r matches Ok(ids) ==> tiers_never_rise(pre.blocks().remove_keys(ids@.to_set()), post.blocks()))
        &&& post.capacity() == pre.capacity()
        &&& post.block_size() == pre.block_size()
        &&& post.aggressive() == pre.aggressive()
    }

    /// The resident blocks, keyed by id.
    pub closed spec fn blocks(&self) -> Map<u32, KvBlock> {
        Map::new(
            |id: u32| (id as int) < self.slots@.len() && self.slots@[id as int] is Some,
            |id: u32| self.slots@[id as int].unwrap(),
        )
    }

    /// The free list (ids available for reuse; the last one is reused first).
    pub closed spec fn free_ids(&self) -> Seq<u32> {
        self.free_list@
    }

    /// The smallest id never handed out.
    pub closed spec fn next_block_id(&self) -> nat {
        self.slots@.len()
    }

    /// Bytes currently allocated.
    pub closed spec fn used(&self) -> nat {
        self.used_bytes as nat
    }

    /// Byte budget.
    pub closed spec fn capacity(&self) -> nat {
        self.capacity_bytes as nat
    }

    /// Per-block byte cost.
    pub closed spec fn block_size(&self) -> nat {
        self.block_size_bytes as nat
    }

    /// Whether demotion frees think blocks instead of re-tiering them.
    pub closed spec fn aggressive(&self) -> bool {
        self.aggressive_think_eviction
    }

    /// The logical clock the next access is stamped with.
    pub closed spec fn clock(&self) -> nat {
        self.clock as nat
    }

    /// The manager's internal invariant.
    pub closed spec fn well_formed(&self) -> bool {
        &&& self.slots@.len() <= u32::MAX
        &&& forall|i: int| #![trigger self.slots@[i]] 0 <= i < self.slots@.len() && self.slots@[i] is Some ==> {
            &&& self.slots@[i].unwrap().block_id == i
            &&& self.slots@[i].unwrap().size_bytes == self.block_size_bytes
            &&& (self.slots@[i].unwrap().last_access_ns < self.clock || self.clock == u64::MAX)
        }
        &&& self.free_list@.no_duplicates()
        &&& forall|k: int| #![trigger self.free_list@[k]] 0 <= k < self.free_list@.len() ==> {
            &&& (self.free_list@[k] as int) < self.slots@.len()
            &&& self.slots@[self.free_list@[k] as int] is None
        }
        &&& forall|i: int| #![trigger self.slots@[i]] 0 <= i < self.slots@.len() && self.slots@[i] is None
            ==> self.free_list@.contains(i as u32)
        &&& self.used_bytes == count_slots(self.slots@, any_block()) * self.block_size_bytes
        &&& self.used_bytes <= self.capacity_bytes
    }

    /// Number of resident blocks.
    pub open spec fn resident_count(&self) -> nat {
        self.blocks().dom().len()
    }

    /// Ids of the resident blocks in `tier`.
    pub open spec fn tier_ids(&self, tier: BlockTier) -> Set<u32> {
        self.blocks().dom().filter(|id: u32| self.blocks()[id].tier == tier)
    }

    /// Ids of the resident blocks owned by `req_id`.
    pub open spec fn request_ids(&self, req_id: u64) -> Set<u32> {
        self.blocks().dom().filter(|id: u32| self.blocks()[id].req_id == req_id)
    }

    /// Ids of the resident `ThinkActive` blocks owned by `req_id`.
    pub open spec fn think_active_ids(&self, req_id: u64) -> Set<u32> {
        self.blocks().dom().filter(|id: u32| self.blocks()[id].req_id == req_id && self.blocks()[id].tier == BlockTier::ThinkActive)
    }

    /// The ids eviction would release to free `needed` bytes.
    pub open spec fn eviction_for(&self, needed: int) -> Seq<u32> {
        eviction_sequence(self.blocks(), needed, self.block_size())
    }

    /// The ids an allocation of `n_blocks` evicts first to make room (empty
    /// when the free bytes already suffice).
    pub open spec fn reclaim_for(&self, n_blocks: u32) -> Seq<u32> {
        let needed = n_blocks * self.block_size();
        let available = self.capacity() - self.used();
        if available < needed {
            self.eviction_for(needed - available)
        } else {
            Seq::empty()
        }
    }

    /// An allocation of `n_blocks` fails for lack of memory, or the id space
    /// (ids are `u32`, and `u32::MAX` is never handed out) has room for it.
    pub open spec fn allocation_fits(&self, n_blocks: u32) -> bool {
        ||| n_blocks * self.block_size() > self.capacity()
        ||| self.next_block_id() + n_blocks <= u32::MAX + self.free_ids().len() + self.reclaim_for(n_blocks).len()
    }

    proof fn lemma_view(&self)
        requires
            self.well_formed(),
        ensures
            self.blocks().dom().finite(),
            self.blocks().dom().len() == count_slots(self.slots@, any_block()),
            forall|t: BlockTier| #[trigger] self.tier_ids(t).len() == count_slots(self.slots@, in_tier(t)),
            forall|t: BlockTier| #[trigger] self.tier_ids(t).finite(),
            keyed_by_id(self.blocks()),
            self.used() == self.resident_count() * self.block_size(),
            forall|id: u32| #[trigger] self.blocks().dom().contains(id) ==> {
                &&& self.blocks()[id].size_bytes == self.block_size_bytes
                &&& (self.blocks()[id].last_access_ns < self.clock || self.clock == u64::MAX)
            },
    {
        lemma_slot_set(self.slots@, any_block());
        assert(self.blocks().dom() =~= slot_set(self.slots@, any_block()));
        assert forall|t: BlockTier| #[trigger] self.tier_ids(t).len() == count_slots(self.slots@, in_tier(t))
            && self.tier_ids(t).finite() by {
            lemma_slot_set(self.slots@, in_tier(t));
            assert(self.tier_ids(t) =~= slot_set(self.slots@, in_tier(t)));
        }
        assert forall|id: u32| #[trigger] self.blocks().dom().contains(id) implies self.blocks()[id].block_id == id by {
            assert(self.slots@[id as int] is Some);
        }
        assert forall|id: u32| #[trigger] self.blocks().dom().contains(id) implies {
            &&& self.blocks()[id].size_bytes == self.block_size_bytes
            &&& (self.blocks()[id].last_access_ns < self.clock || self.clock == u64::MAX)
        } by {
            assert(self.slots@[id as int] is Some);
        }
    }

    /// Accounting invariant: the bytes in use are exactly one block's cost per
    /// resident block, never more than the budget, and the resident set is
    /// finite and stored under its own ids.
    pub proof fn lemma_accounting(&self)
        requires
            self.well_formed(),
        ensures
            self.blocks().dom().finite(),
            keyed_by_id(self.blocks()),
            self.used() == self.resident_count() * self.block_size(),
            self.used() <= self.capacity(),
            self.tier_ids(BlockTier::ThinkComplete).len() + self.tier_ids(BlockTier::ThinkActive).len()
                + self.tier_ids(BlockTier::OutputCritical).len() == self.resident_count(),
            forall|id: u32| #[trigger] self.blocks().dom().contains(id) ==>
                self.blocks()[id].size_bytes == self.block_size(),
    {
        self.lemma_view();
        let d = self.blocks().dom();
        let a = self.tier_ids(BlockTier::ThinkComplete);
        let b = self.tier_ids(BlockTier::ThinkActive);
        let c = self.tier_ids(BlockTier::OutputCritical);
        assert(d =~= a.union(b).union(c));
        vstd::set_lib::lemma_set_disjoint_lens(a, b);
        vstd::set_lib::lemma_set_disjoint_lens(a.union(b), c);
    }

    /// Every resident block is stamped before the clock (at it, once the
    /// clock has saturated at `u64::MAX`), so a block touched now becomes the
    /// most recently used of all resident blocks.
    pub proof fn lemma_stamps_not_after_clock(&self)
        requires
            self.well_formed(),
        ensures
            forall|id: u32| #[trigger] self.blocks().dom().contains(id) ==> self.blocks()[id].last_access_ns
                <= self.clock(),
            self.clock() < u64::MAX ==> forall|id: u32| #[trigger] self.blocks().dom().contains(id)
                ==> self.blocks()[id].last_access_ns < self.clock(),
    {
        self.lemma_view();
    }

    /// Freeing a request twice is freeing it once: the second call releases
    /// nothing and changes nothing.
    pub proof fn lemma_free_idempotent(
        pre: PhaseAwareBlockManager,
        mid: PhaseAwareBlockManager,
        post: PhaseAwareBlockManager,
        req_id: u64,
    )
        requires
            PhaseAwareBlockManager::free_effect(pre, mid, req_id),
            PhaseAwareBlockManager::free_effect(mid, post, req_id),
        ensures
            post.blocks() == mid.blocks(),
            post.free_ids() == mid.free_ids(),
            post.used() == mid.used(),
    {
        assert(mid.request_ids(req_id) =~= Set::<u32>::empty());
        let released = post.free_ids().skip(mid.free_ids().len() as int);
        if released.len() > 0 {
            assert(released.to_set().contains(released[0]));
        }
        assert(mid.blocks().remove_keys(Set::<u32>::empty()) =~= mid.blocks());
        assert(mid.free_ids() + released =~= mid.free_ids());
    }

    /// Demoting a request twice is demoting it once: the second call finds
    /// no think-active block of the request and changes nothing.
    pub proof fn lemma_demote_idempotent(
        pre: PhaseAwareBlockManager,
        mid: PhaseAwareBlockManager,
        post: PhaseAwareBlockManager,
        req_id: u64,
    )
        requires
            PhaseAwareBlockManager::demote_effect(pre, mid, req_id),
            PhaseAwareBlockManager::demote_effect(mid, post, req_id),
        ensures
            post.blocks() == mid.blocks(),
            post.free_ids() == mid.free_ids(),
            post.used() == mid.used(),
    {
        assert forall|id: u32| !mid.think_active_ids(req_id).contains(id) by {
            if mid.blocks().dom().contains(id) && pre.blocks().dom().contains(id)
                && pre.think_active_ids(req_id).contains(id) {
                assert(mid.blocks()[id].tier == BlockTier::ThinkComplete);
            }
        }
        assert(mid.think_active_ids(req_id) =~= Set::<u32>::empty());
        let released = post.free_ids().skip(mid.free_ids().len() as int);
        if mid.aggressive() && released.len() > 0 {
            assert(released.to_set().contains(released[0]));
        }
        assert(mid.blocks().remove_keys(Set::<u32>::empty()) =~= mid.blocks());
        assert(post.blocks() =~= mid.blocks());
        if mid.aggressive() {
            assert(released.len() == 0);
            assert(released.len() * mid.block_size() == 0) by (nonlinear_arith)
                requires released.len() == 0;
            assert(mid.free_ids() + released =~= mid.free_ids());
        }
    }

    /// An allocation evicts only to cover its deficit: when the free bytes
    /// already hold the request it evicts nothing, and when it did evict, less
    /// than one block of room is left after it, so evicting one block fewer
    /// would not have made room.
    pub proof fn lemma_allocation_evicts_only_the_deficit(
        pre: PhaseAwareBlockManager,
        post: PhaseAwareBlockManager,
        req_id: u64,
        tier: BlockTier,
        n_blocks: u32,
        r: Result<Vec<u32>>,
    )
        requires
            pre.well_formed(),
            Self::allocate_effect(pre, post, req_id, tier, n_blocks, r),
        ensures
            r is Ok && n_blocks * pre.block_size() <= pre.capacity() - pre.used() ==> {
                &&& post.used() == pre.used() + n_blocks * pre.block_size()
                &&& forall|id: u32| #[trigger] pre.blocks().dom().contains(id) ==> post.blocks().dom().contains(id)
            },
            r is Ok && post.used() < pre.used() + n_blocks * pre.block_size()
                ==> post.used() + pre.block_size() > pre.capacity(),
    {
        pre.lemma_accounting();
        let bs = pre.block_size();
        let needed = n_blocks * bs;
        let available = pre.capacity() - pre.used();
        let reclaim = pre.reclaim_for(n_blocks);
        if available < needed {
            lemma_eviction_sequence(pre.blocks(), needed - available, bs);
            if reclaim.len() > 0 {
                assert((reclaim.len() - 1) * bs == reclaim.len() * bs - bs) by (nonlinear_arith);
            }
        } else {
            assert(reclaim.to_set() =~= Set::<u32>::empty());
            assert(pre.blocks().remove_keys(reclaim.to_set()) =~= pre.blocks());
        }
    }

    /// Construct from an MLA block layout and a byte budget. The layout's
    /// block size must fit in a `u32`.
    pub fn new_mla(mla: MlaBlockConfig, capacity_bytes: u64, aggressive_think_eviction: bool) -> (m: Self)
        requires
            mla.spec_block_size() <= u32::MAX,
        ensures
            m.well_formed(),
            m.blocks() == Map::<u32, KvBlock>::empty(),
            m.free_ids() == Seq::<u32>::empty(),
            m.next_block_id() == 0,
            m.used() == 0,
            m.capacity() == capacity_bytes,
            m.block_size() == mla.spec_block_size(),
            m.aggressive() == aggressive_think_eviction,
            m.clock() == 1,
    {
        let size = mla.block_size_bytes();
        Self::new_with_block_size(size, capacity_bytes, aggressive_think_eviction)
    }

    /// Construct with an explicit per-block byte cost.
    pub fn new_with_block_size(block_size_bytes: u32, capacity_bytes: u64, aggressive_think_eviction: bool) -> (m: Self)
        ensures
            m.well_formed(),
            m.blocks() == Map::<u32, KvBlock>::empty(),
            m.free_ids() == Seq::<u32>::empty(),
            m.next_block_id() == 0,
            m.used() == 0,
            m.capacity() == capacity_bytes,
            m.block_size() == block_size_bytes,
            m.aggressive() == aggressive_think_eviction,
            m.clock() == 1,
    {
        let m = Self {
            slots: Vec::new(),
            free_list: Vec::new(),
            used_bytes: 0,
            capacity_bytes,
            block_size_bytes,
            aggressive_think_eviction,
            clock: 1,
        };
        assert(m.blocks() =~= Map::<u32, KvBlock>::empty());
        assert(count_slots(m.slots@, any_block()) == 0);
        assert(0 * block_size_bytes == 0) by (nonlinear_arith);
        m
    }

    /// Per-block byte cost in the configured layout.
    pub fn block_size_bytes(&self) -> (size: u32)
        ensures
            size == self.block_size(),
    {
        self.block_size_bytes
    }

    /// `true` when evicting for `needed_bytes` would have to reach the
    /// `OutputCritical` tier: the two lower tiers together hold fewer bytes
    /// than needed.
    pub fn eviction_reaches_output_critical(&self, needed_bytes: u64) -> (b: bool)
        requires
            self.well_formed(),
        ensures
            b == ((self.tier_ids(BlockTier::ThinkComplete).len() + self.tier_ids(BlockTier::ThinkActive).len())
                * self.block_size() < needed_bytes),
    {
        let lower = self.blocks_in_tier(BlockTier::ThinkComplete) as u128 + self.blocks_in_tier(BlockTier::ThinkActive) as u128;
        proof {
            assert(lower <= 0x2_0000_0000_0000_0000);
            assert(lower * (self.block_size_bytes as u128) <= 0x2_0000_0000_0000_0000 * 0xffff_ffff) by (nonlinear_arith)
                requires lower <= 0x2_0000_0000_0000_0000, self.block_size_bytes <= 0xffff_ffff;
        }
        lower * (self.block_size_bytes as u128) < needed_bytes as u128
    }

    /// `true` when `block_id` is currently resident.
    pub fn is_resident(&self, block_id: u32) -> (resident: bool)
        requires
            self.well_formed(),
        ensures
            resident == self.blocks().dom().contains(block_id),
    {
        if (block_id as usize) < self.slots.len() {
            self.slots[block_id as usize].is_some()
        } else {
            false
        }
    }

    /// Count of blocks currently in a given tier.
    pub fn blocks_in_tier(&self, tier: BlockTier) -> (n: usize)
        requires
            self.well_formed(),
        ensures
            n == self.tier_ids(tier).len(),
    {
        proof {
            self.lemma_view();
        }
        let mut n: usize = 0;
        let mut i: usize = 0;
        while i < self.slots.len()
            invariant
                self.well_formed(),
                i <= self.slots@.len(),
                n == count_slots(self.slots@.take(i as int), in_tier(tier)),
                n <= i,
            decreases self.slots@.len() - i,
        {
            proof {
                lemma_count_take(self.slots@, i as int, in_tier(tier));
            }
            let hit = match &self.slots[i] {
                Some(b) => b.tier == tier,
                None => false,
            };
            if hit {
                n = n + 1;
            }
            i = i + 1;
        }
        assert(self.slots@.take(i as int) =~= self.slots@);
        n
    }

    /// Find the resident block that eviction takes next, if any.
    fn find_victim(&self) -> (victim: Option<u32>)
        requires
            self.well_formed(),
        ensures
            victim is Some ==> is_next_victim(self.blocks(), victim.unwrap()),
            victim is None ==> self.blocks().dom().len() == 0,
    {
        proof {
            self.lemma_view();
        }
        let mut best: Option<u32> = None;
        let mut i: usize = 0;
        while i < self.slots.len()
            invariant
                self.well_formed(),
                i <= self.slots@.len(),
                best is None ==> forall|k: int| 0 <= k < i ==> self.slots@[k] is None,
                best is Some ==> {
                    let j = best.unwrap() as int;
                    &&& 0 <= j < i
                    &&& self.slots@[j] is Some
                    &&& forall|k: int| 0 <= k < i && k != j && self.slots@[k] is Some
                        ==> evicts_before(self.slots@[j].unwrap(), #[trigger] self.slots@[k].unwrap())
                },
            decreases self.slots@.len() - i,
        {
            match &self.slots[i] {
                None => {}
                Some(b) => {
                    match best {
                        None => {
                            best = Some(i as u32);
                        }
                        Some(j) => {
                            let better = match &self.slots[j as usize] {
                                Some(c) => Self::precedes(b, c),
                                None => false,
                            };
                            if better {
                                proof {
                                    let cur = self.slots@[i as int].unwrap();
                                    let old_best = self.slots@[j as int].unwrap();
                                    assert forall|k: int| 0 <= k < i + 1 && k != i && self.slots@[k] is Some
                                        implies evicts_before(cur, #[trigger] self.slots@[k].unwrap()) by {
                                        if k != j as int {
                                            let other = self.slots@[k].unwrap();
                                            assert(evicts_before(old_best, other));
                                        }
                                    }
                                }
                                best = Some(i as u32);
                            } else {
                                proof {
                                    let cur = self.slots@[i as int].unwrap();
                                    let old_best = self.slots@[j as int].unwrap();
                                    assert(cur.block_id != old_best.block_id);
                                    assert(evicts_before(old_best, cur));
                                }
                            }
                        }
                    }
                }
            }
            i = i + 1;
        }
        match best {
            None => {
                assert(self.blocks().dom() =~= Set::<u32>::empty());
                None
            }
            Some(j) => {
                assert forall|o: u32| #[trigger] self.blocks().dom().contains(o) && o != j
                    implies evicts_before(self.blocks()[j], self.blocks()[o]) by {
                    assert(self.slots@[o as int] is Some);
                }
                Some(j)
            }
        }
    }

    /// Exec form of [`evicts_before`].
    fn precedes(a: &KvBlock, b: &KvBlock) -> (r: bool)
        ensures
            r == evicts_before(*a, *b),
    {
        let ra = a.tier.as_u8();
        let rb = b.tier.as_u8();
        if ra != rb {
            ra < rb
        } else if a.last_access_ns != b.last_access_ns {
            a.last_access_ns < b.last_access_ns
        } else {
            a.block_id < b.block_id
        }
    }

    /// Stamp for the next access; advances the clock (saturating).
    fn next_access_ts(&mut self) -> (ts: u64)
        requires
            old(self).well_formed(),
        ensures
            final(self).well_formed(),
            ts == old(self).clock(),
            final(self).clock() == stamp(old(self).clock(), 1),
            final(self).slots@ == old(self).slots@,
            final(self).free_list@ == old(self).free_list@,
            final(self).used_bytes == old(self).used_bytes,
            final(self).capacity_bytes == old(self).capacity_bytes,
            final(self).block_size_bytes == old(self).block_size_bytes,
            final(self).aggressive_think_eviction == old(self).aggressive_think_eviction,
    {
        let ts = self.clock;
        if self.clock < u64::MAX {
            self.clock = self.clock + 1;
        }
        ts
    }

    /// Release, in ascending id order, every resident block of `req_id`
    /// (only its `ThinkActive` blocks when `think_active_only`).
    fn release_matching(&mut self, req_id: u64, think_active_only: bool)
        requires
            old(self).well_formed(),
        ensures
            final(self).well_formed(),
            ({
                let released = final(self).free_ids().skip(old(self).free_ids().len() as int);
                let matching = if think_active_only {
                    old(self).think_active_ids(req_id)
                } else {
                    old(self).request_ids(req_id)
                };
                &&& final(self).free_ids() == old(self).free_ids() + released
                &&& ascending(released)
                &&& released.to_set() == matching
                &&& final(self).blocks() == old(self).blocks().remove_keys(matching)
                &&& final(self).used() == old(self).used() - released.len() * old(self).block_size()
            }),
            final(self).next_block_id() == old(self).next_block_id(),
            final(self).capacity() == old(self).capacity(),
            final(self).block_size() == old(self).block_size(),
            final(self).aggressive() == old(self).aggressive(),
            final(self).clock() == old(self).clock(),
    {
        let ghost pre = self.blocks();
        let ghost matching = if think_active_only {
            old(self).think_active_ids(req_id)
        } else {
            old(self).request_ids(req_id)
        };
        let ghost mut released: Seq<u32> = Seq::empty();
        let mut i: usize = 0;
        proof {
            assert(pre.remove_keys(released.to_set()) =~= pre);
            assert(matching.filter(|id: u32| (id as int) < 0) =~= Set::<u32>::empty());
            assert(old(self).free_ids() + released =~= old(self).free_ids());
        }
        while i < self.slots.len()
            invariant
                self.well_formed(),
                i <= self.slots@.len(),
                self.next_block_id() == old(self).next_block_id(),
                self.capacity() == old(self).capacity(),
                self.block_size() == old(self).block_size(),
                self.aggressive() == old(self).aggressive(),
                self.clock() == old(self).clock(),
                matching == (if think_active_only {
                    old(self).think_active_ids(req_id)
                } else {
                    old(self).request_ids(req_id)
                }),
                pre == old(self).blocks(),
                self.free_ids() == old(self).free_ids() + released,
                ascending(released),
                forall|k: int| 0 <= k < released.len() ==> (#[trigger] released[k] as int) < i,
                released.to_set() == matching.filter(|id: u32| (id as int) < i),
                self.blocks() == pre.remove_keys(released.to_set()),
                self.used() == old(self).used() - released.len() * old(self).block_size(),
                forall|k: int| #![trigger self.slots@[k]] i <= k < self.slots@.len() ==> self.slots@[k] == old(self).slots@[k],
            decreases self.slots@.len() - i,
        {
            let hit = match &self.slots[i] {
                Some(b) => b.req_id == req_id && (!think_active_only || b.tier == BlockTier::ThinkActive),
                None => false,
            };
            let ghost before = released;
            if hit {
                proof {
                    assert(self.slots@[i as int] == old(self).slots@[i as int]);
                    assert(self.blocks().dom().contains(i as u32));
                }
                let ghost used_before = self.used();
                self.release_slot(i as u32);
                proof {
                    released = released.push(i as u32);
                    assert(old(self).free_ids() + released =~= (old(self).free_ids() + before).push(i as u32));
                    before.lemma_push_to_set_commute(i as u32);
                    assert(pre.remove_keys(released.to_set()) =~= pre.remove_keys(before.to_set()).remove(i as u32));
                    let u1 = self.used();
                    let u0 = old(self).used();
                    let b = old(self).block_size();
                    let n0 = before.len();
                    let n1 = released.len();
                    assert(u1 == u0 - n1 * b) by (nonlinear_arith)
                        requires
                            u1 == used_before - b,
                            used_before == u0 - n0 * b,
                            n1 == n0 + 1;
                }
            }
            proof {
                assert forall|k: int| #![trigger self.slots@[k]] i + 1 <= k < self.slots@.len() implies self.slots@[k] == old(self).slots@[k] by {
                }
                assert(released.to_set() =~= matching.filter(|id: u32| (id as int) < i + 1)) by {
                    if hit {
                        before.lemma_push_to_set_commute(i as u32);
                        assert(old(self).blocks().dom().contains(i as u32));
                        assert(matching.contains(i as u32));
                    } else {
                        assert(released == before);
                        assert(!matching.contains(i as u32)) by {
                            if matching.contains(i as u32) {
                                assert(old(self).blocks().dom().contains(i as u32));
                                assert(old(self).slots@[i as int] == self.slots@[i as int]);
                            }
                        }
                    }
                }
            }
            i = i + 1;
        }
        proof {
            assert(matching.filter(|id: u32| (id as int) < i) =~= matching) by {
                assert forall|x: u32| matching.contains(x) implies (x as int) < i by {
                    assert(old(self).blocks().dom().contains(x));
                }
            }
            assert(self.free_ids().skip(old(self).free_ids().len() as int) =~= released);
        }
    }

    /// Put one new block for `req_id` in `tier` covering token `i`, taking its
    /// id from the end of the free list, or minting the next fresh id.
    fn install_block(&mut self, req_id: u64, tier: BlockTier, i: u32) -> (id: u32)
        requires
            old(self).well_formed(),
            old(self).used() + old(self).block_size() <= old(self).capacity(),
            old(self).free_ids().len() > 0 || old(self).next_block_id() < u32::MAX,
            i < u32::MAX,
        ensures
            final(self).well_formed(),
            old(self).free_ids().len() > 0 ==> {
                &&& id == old(self).free_ids().last()
                &&& final(self).free_ids() == old(self).free_ids().drop_last()
                &&& final(self).next_block_id() == old(self).next_block_id()
            },
            old(self).free_ids().len() == 0 ==> {
                &&& id == old(self).next_block_id()
                &&& final(self).free_ids() == old(self).free_ids()
                &&& final(self).next_block_id() == old(self).next_block_id() + 1
            },
            !old(self).blocks().dom().contains(id),
            final(self).blocks() == old(self).blocks().insert(
                id, allocated_block(id, req_id, tier, i as int, old(self).block_size() as u32, old(self).clock() as u64)),
            final(self).used() == old(self).used() + old(self).block_size(),
            final(self).clock() == stamp(old(self).clock(), 1),
            final(self).capacity() == old(self).capacity(),
            final(self).block_size() == old(self).block_size(),
            final(self).aggressive() == old(self).aggressive(),
    {
        let ts = self.next_access_ts();
        let ghost pre = self.slots@;
        let from_free = self.free_list.len() > 0;
        let id: u32 = if from_free {
            let popped = self.free_list.pop();
            match popped {
                Some(x) => x,
                None => 0,
            }
        } else {
            self.slots.len() as u32
        };
        let block = KvBlock {
            block_id: id,
            req_id,
            tier,
            token_range: i..(i + 1),
            size_bytes: self.block_size_bytes,
            last_access_ns: ts,
        };
        proof {
            let n = count_slots(pre, any_block());
            let b = self.block_size_bytes as int;
            assert(n * b + b == (n + 1) * b) by (nonlinear_arith);
            if from_free {
                assert(old(self).free_list@[old(self).free_list@.len() - 1] == id);
                lemma_count_update(pre, id as int, Some(block), any_block());
            } else {
                lemma_count_push(pre, Some(block), any_block());
            }
        }
        if from_free {
            self.slots.set(id as usize, Some(block));
        } else {
            self.slots.push(Some(block));
        }
        self.used_bytes = self.used_bytes + self.block_size_bytes as u64;
        proof {
            assert(self.blocks() =~= old(self).blocks().insert(
                id, allocated_block(id, req_id, tier, i as int, old(self).block_size() as u32, old(self).clock() as u64)));
            if from_free {
                assert forall|k: int| #![trigger self.free_list@[k]] 0 <= k < self.free_list@.len() implies {
                    &&& (self.free_list@[k] as int) < self.slots@.len()
                    &&& self.slots@[self.free_list@[k] as int] is None
                } by {
                    assert(old(self).free_list@[k] == self.free_list@[k]);
                    assert(self.free_list@[k] != id);
                }
                assert forall|j: int| #![trigger self.slots@[j]] 0 <= j < self.slots@.len() && self.slots@[j] is None
                    implies self.free_list@.contains(j as u32) by {
                    assert(old(self).free_list@.contains(j as u32));
                    let k = choose|k: int| 0 <= k < old(self).free_list@.len() && old(self).free_list@[k] == j as u32;
                    assert(k != old(self).free_list@.len() - 1);
                    assert(self.free_list@[k] == j as u32);
                }
                assert(self.free_list@ =~= old(self).free_list@.drop_last());
            } else {
                assert forall|j: int| #![trigger self.slots@[j]] 0 <= j < self.slots@.len() && self.slots@[j] is None
                    implies self.free_list@.contains(j as u32) by {
                    assert(old(self).slots@[j] is None);
                }
            }
        }
        id
    }

    /// Release the resident block in slot `id`: the slot empties, its bytes are
    /// returned and its id goes to the end of the free list.
    fn release_slot(&mut self, id: u32)
        requires
            old(self).well_formed(),
            old(self).blocks().dom().contains(id),
        ensures
            final(self).well_formed(),
            final(self).blocks() == old(self).blocks().remove(id),
            final(self).slots@ == old(self).slots@.update(id as int, None),
            final(self).free_ids() == old(self).free_ids().push(id),
            final(self).used() == old(self).used() - old(self).block_size(),
            final(self).next_block_id() == old(self).next_block_id(),
            final(self).capacity() == old(self).capacity(),
            final(self).block_size() == old(self).block_size(),
            final(self).aggressive() == old(self).aggressive(),
            final(self).clock() == old(self).clock(),
    {
        let ghost pre = self.slots@;
        proof {
            lemma_count_update(pre, id as int, None, any_block());
            lemma_count_positive(pre, id as int, any_block());
            assert(!self.free_list@.contains(id)) by {
                if self.free_list@.contains(id) {
                    let k = choose|k: int| 0 <= k < self.free_list@.len() && self.free_list@[k] == id;
                    assert(self.slots@[self.free_list@[k] as int] is None);
                }
            }
        }
        self.slots.set(id as usize, None);
        proof {
            let n = count_slots(pre, any_block());
            assert(self.used_bytes == n * self.block_size_bytes);
            assert(n * self.block_size_bytes >= self.block_size_bytes) by (nonlinear_arith)
                requires n >= 1;
            assert((n - 1) * self.block_size_bytes == n * self.block_size_bytes - self.block_size_bytes) by (nonlinear_arith);
        }
        self.used_bytes = self.used_bytes - self.block_size_bytes as u64;
        self.free_list.push(id);
        proof {
            assert(self.blocks() =~= old(self).blocks().remove(id));
            assert forall|i: int| #![trigger self.slots@[i]] 0 <= i < self.slots@.len() && self.slots@[i] is None
                implies self.free_list@.contains(i as u32) by {
                if i != id as int {
                    assert(old(self).free_list@.contains(i as u32));
                    let k = choose|k: int| 0 <= k < old(self).free_list@.len() && old(self).free_list@[k] == i as u32;
                    assert(self.free_list@[k] == i as u32);
                } else {
                    assert(self.free_list@[self.free_list@.len() - 1] == id);
                }
            }
        }
    }
}

impl BlockManager for PhaseAwareBlockManager {
    open spec fn inv(&self) -> bool {
        self.well_formed()
    }

    open spec fn allocation_ok(&self, n_blocks: u32) -> bool {
        self.allocation_fits(n_blocks)
    }

    open spec fn used_total(&self) -> nat {
        self.used()
    }

    open spec fn capacity_total(&self) -> nat {
        self.capacity()
    }

    /// Ids of the blocks currently owned by `req_id`, in ascending order.
    fn blocks_for_request(&self, req_id: u64) -> (ids: Vec<u32>)
        ensures
            ascending(ids@),
            ids@.to_set() == self.request_ids(req_id),
    {
        let mut ids: Vec<u32> = Vec::new();
        let mut i: usize = 0;
        while i < self.slots.len()
            invariant
                self.well_formed(),
                i <= self.slots@.len(),
                ascending(ids@),
                forall|k: int| 0 <= k < ids@.len() ==> (#[trigger] ids@[k] as int) < i,
                ids@.to_set() == self.request_ids(req_id).filter(|id: u32| (id as int) < i),
            decreases self.slots@.len() - i,
        {
            let hit = match &self.slots[i] {
                Some(b) => b.req_id == req_id,
                None => false,
            };
            let ghost before = ids@;
            if hit {
                ids.push(i as u32);
            }
            proof {
                assert(ids@.to_set() =~= self.request_ids(req_id).filter(|id: u32| (id as int) < i + 1)) by {
                    if hit {
                        assert forall|x: u32| ids@.to_set().contains(x) implies
                            self.request_ids(req_id).filter(|id: u32| (id as int) < i + 1).contains(x) by {
                            if x != i as u32 {
                                assert(before.to_set().contains(x)) by {
                                    let k = choose|k: int| 0 <= k < ids@.len() && ids@[k] == x;
                                    assert(before[k] == x);
                                }
                            }
                        }
                        assert forall|x: u32| self.request_ids(req_id).filter(|id: u32| (id as int) < i + 1).contains(x)
                            implies ids@.to_set().contains(x) by {
                            if x == i as u32 {
                                assert(ids@[ids@.len() - 1] == x);
                            } else {
                                assert(before.to_set().contains(x));
                                let k = choose|k: int| 0 <= k < before.len() && before[k] == x;
                                assert(ids@[k] == x);
                            }
                        }
                    }
                }
            }
            i = i + 1;
        }
        assert(self.request_ids(req_id).filter(|id: u32| (id as int) < i) =~= self.request_ids(req_id));
        ids
    }

    /// Bytes currently allocated.
    fn used_bytes(&self) -> (used: u64)
        ensures
            used == self.used(),
    {
        self.used_bytes
    }

    /// Total byte budget.
    fn capacity_bytes(&self) -> (capacity: u64)
        ensures
            capacity == self.capacity(),
    {
        self.capacity_bytes
    }

    /// Evict blocks until at least `needed_bytes` have been freed or none is
    /// left: lowest tier first, least recently accessed first inside a tier
    /// (see [`lemma_eviction_order`]). Returns the number of bytes freed.
    fn evict_for(&mut self, needed_bytes: u64) -> (freed: u64)
        ensures
            final(self).well_formed(),
            Self::evict_effect(*old(self), *final(self), needed_bytes, freed),
    {
        let ghost pre = self.blocks();
        let ghost bs = self.block_size();
        let ghost full = eviction_sequence(pre, needed_bytes as int, bs);
        let ghost mut done: Seq<u32> = Seq::empty();
        let mut freed: u64 = 0;
        proof {
            self.lemma_view();
            assert(pre.remove_keys(done.to_set()) =~= pre);
        }
        loop
            invariant
                self.well_formed(),
                bs == self.block_size(),
                bs == old(self).block_size(),
                done + eviction_sequence(self.blocks(), needed_bytes - freed, bs) == full,
                self.blocks() == pre.remove_keys(done.to_set()),
                self.free_ids() == old(self).free_ids() + done,
                freed == done.len() * bs,
                freed + self.used() == old(self).used(),
                self.next_block_id() == old(self).next_block_id(),
                self.capacity() == old(self).capacity(),
                self.aggressive() == old(self).aggressive(),
                self.clock() == old(self).clock(),
            ensures
                self.well_formed(),
                done == full,
                self.blocks() == pre.remove_keys(done.to_set()),
                self.free_ids() == old(self).free_ids() + done,
                freed == done.len() * bs,
                freed + self.used() == old(self).used(),
                self.next_block_id() == old(self).next_block_id(),
                self.capacity() == old(self).capacity(),
                self.block_size() == old(self).block_size(),
                self.aggressive() == old(self).aggressive(),
                self.clock() == old(self).clock(),
            decreases self.blocks().dom().len(),
        {
            proof {
                self.lemma_view();
            }
            if freed >= needed_bytes {
                proof {
                    assert(eviction_sequence(self.blocks(), needed_bytes - freed, bs) == Seq::<u32>::empty());
                    assert(done + Seq::<u32>::empty() =~= done);
                }
                break;
            }
            match self.find_victim() {
                None => {
                    proof {
                        let v = next_victim(self.blocks());
                        assert(!self.blocks().dom().contains(v));
                        assert(eviction_sequence(self.blocks(), needed_bytes - freed, bs) == Seq::<u32>::empty());
                        assert(done + Seq::<u32>::empty() =~= done);
                    }
                    break;
                }
                Some(id) => {
                    let ghost before = self.blocks();
                    proof {
                        lemma_victim_is_next(before, id);
                        let rem = needed_bytes - freed;
                        assert(eviction_sequence(before, rem, bs)
                            == seq![id] + eviction_sequence(before.remove(id), rem - bs, bs));
                    }
                    self.release_slot(id);
                    freed = freed + self.block_size_bytes as u64;
                    proof {
                        let rem = needed_bytes - (freed - bs);
                        assert(done.push(id) + eviction_sequence(self.blocks(), needed_bytes - freed, bs)
                            =~= done + (seq![id] + eviction_sequence(before.remove(id), rem - bs, bs)));
                        assert(freed == (done.len() + 1) * bs) by (nonlinear_arith)
                            requires freed == done.len() * bs + bs;
                        done.lemma_push_to_set_commute(id);
                        assert(pre.remove_keys(done.push(id).to_set()) =~= pre.remove_keys(done.to_set()).remove(id));
                        assert(old(self).free_ids() + done.push(id) =~= (old(self).free_ids() + done).push(id));
                        done = done.push(id);
                        assert(self.blocks().dom().len() < before.dom().len());
                    }
                }
            }
        }
        freed
    }

    /// Update the access time of `block_id` to the current clock, moving it
    /// to the back of its tier's LRU order. Unknown ids are ignored.
    fn touch(&mut self, block_id: u32)
        ensures
            final(self).well_formed(),
            Self::touch_effect(*old(self), *final(self), block_id),
    {
        if (block_id as usize) >= self.slots.len() {
            return;
        }
        if self.slots[block_id as usize].is_none() {
            return;
        }
        let ts = self.next_access_ts();
        let ghost pre = self.slots@;
        let updated = match &self.slots[block_id as usize] {
            Some(b) => KvBlock {
                block_id: b.block_id,
                req_id: b.req_id,
                tier: b.tier,
                token_range: b.token_range.start..b.token_range.end,
                size_bytes: b.size_bytes,
                last_access_ns: ts,
            },
            None => {
                return;
            }
        };
        proof {
            lemma_count_update(pre, block_id as int, Some(updated), any_block());
        }
        self.slots.set(block_id as usize, Some(updated));
        proof {
            assert(self.blocks() =~= old(self).blocks().insert(
                block_id,
                accessed_at(old(self).blocks()[block_id], old(self).clock() as u64),
            ));
        }
    }

    /// Release a single block by id. Returns `true` if the block was resident.
    fn free_block_by_id(&mut self, block_id: u32) -> (present: bool)
        ensures
            final(self).well_formed(),
            Self::release_effect(*old(self), *final(self), block_id, present),
    {
        if self.is_resident(block_id) {
            self.release_slot(block_id);
            true
        } else {
            false
        }
    }

    /// Release every block belonging to `req_id`, in ascending id order.
    /// Idempotent.
    fn free(&mut self, req_id: u64)
        ensures
            final(self).well_formed(),
            Self::free_effect(*old(self), *final(self), req_id),
    {
        self.release_matching(req_id, false);
    }

    /// Demote every `ThinkActive` block of `req_id` to `ThinkComplete`; in
    /// aggressive mode those blocks are freed instead (ascending id order).
    /// Blocks keep their access time, so they stay in LRU order.
    fn demote_think_blocks(&mut self, req_id: u64)
        ensures
            final(self).well_formed(),
            Self::demote_effect(*old(self), *final(self), req_id),
    {
        if self.aggressive_think_eviction {
            self.release_matching(req_id, true);
            return;
        }
        let mut i: usize = 0;
        while i < self.slots.len()
            invariant
                self.well_formed(),
                !old(self).aggressive(),
                i <= self.slots@.len(),
                self.slots@.len() == old(self).slots@.len(),
                self.free_list@ == old(self).free_list@,
                self.used_bytes == old(self).used_bytes,
                self.capacity_bytes == old(self).capacity_bytes,
                self.block_size_bytes == old(self).block_size_bytes,
                self.aggressive_think_eviction == old(self).aggressive_think_eviction,
                self.clock == old(self).clock,
                forall|k: int| #![trigger self.slots@[k]] 0 <= k < self.slots@.len() ==> {
                    &&& (self.slots@[k] is Some <==> old(self).slots@[k] is Some)
                    &&& self.slots@[k] is Some ==> self.slots@[k].unwrap() == if k < i
                        && old(self).think_active_ids(req_id).contains(k as u32) {
                        retiered(old(self).slots@[k].unwrap(), BlockTier::ThinkComplete)
                    } else {
                        old(self).slots@[k].unwrap()
                    }
                },
                count_slots(self.slots@, any_block()) == count_slots(old(self).slots@, any_block()),
            decreases self.slots@.len() - i,
        {
            let ghost pre = self.slots@;
            let updated = match &self.slots[i] {
                Some(b) => if b.req_id == req_id && b.tier == BlockTier::ThinkActive {
                    Some(KvBlock {
                        block_id: b.block_id,
                        req_id: b.req_id,
                        tier: BlockTier::ThinkComplete,
                        token_range: b.token_range.start..b.token_range.end,
                        size_bytes: b.size_bytes,
                        last_access_ns: b.last_access_ns,
                    })
                } else {
                    None
                },
                None => None,
            };
            match updated {
                Some(nb) => {
                    proof {
                        lemma_count_update(pre, i as int, Some(nb), any_block());
                        assert(old(self).blocks().dom().contains(i as u32));
                        assert(old(self).think_active_ids(req_id).contains(i as u32));
                    }
                    self.slots.set(i, Some(nb));
                }
                None => {
                    proof {
                        if self.slots@[i as int] is Some {
                            assert(!old(self).think_active_ids(req_id).contains(i as u32));
                        }
                    }
                }
            }
            i = i + 1;
        }
        proof {
            assert(self.blocks().dom() =~= old(self).blocks().dom());
        }
    }

    /// Allocate `n_blocks` blocks for `req_id` in `tier`. When the free bytes
    /// do not cover `n_blocks` blocks, eviction runs first for the deficit
    /// (see [`Self::evict_for`]); if it cannot free enough the call fails with
    /// [`Error::KvMemoryExhausted`], which happens exactly when the request
    /// exceeds the whole budget (the pool has then been emptied by eviction).
    /// Ids come from the free list first (last freed, first reused), then
    /// fresh ids; block `i` covers tokens `i..i + 1` and is stamped with the
    /// clock `i` ticks after its start.
    fn allocate(&mut self, req_id: u64, tier: BlockTier, n_blocks: u32) -> (r: Result<Vec<u32>>)
        ensures
            final(self).well_formed(),
            Self::allocate_effect(*old(self), *final(self), req_id, tier, n_blocks, r),
    {
        let ghost bs = self.block_size();
        let ghost reclaim = self.reclaim_for(n_blocks);
        proof {
            self.lemma_accounting();
            assert((n_blocks as int) * (self.block_size_bytes as int) <= 0xffff_ffff * 0xffff_ffff) by (nonlinear_arith)
                requires n_blocks <= 0xffff_ffff, self.block_size_bytes <= 0xffff_ffff;
        }
        let needed: u64 = (n_blocks as u64) * (self.block_size_bytes as u64);
        let available = self.available_bytes();
        if available < needed {
            let deficit = needed - available;
            proof {
                lemma_eviction_sequence(self.blocks(), deficit as int, bs);
            }
            let freed = self.evict_for(deficit);
            proof {
                let m = old(self).blocks().dom().len();
                let e = reclaim.len();
                assert(e * bs <= m * bs) by (nonlinear_arith) requires e <= m;
            }
            if freed < deficit {
                return Err(Error::KvMemoryExhausted { needed, freed });
            }
        }
        let ghost mid_free = self.free_ids();
        let ghost mid_blocks = self.blocks();
        let ghost mid_next = self.next_block_id();
        let ghost mid_used = self.used();
        let ghost mid_clock = self.clock();
        let ghost fl = mid_free.len();
        proof {
            assert(mid_free == old(self).free_ids() + reclaim);
            assert(mid_blocks == old(self).blocks().remove_keys(reclaim.to_set()));
            assert(mid_used + n_blocks * bs <= self.capacity());
            assert(mid_blocks.dom() + Seq::<u32>::empty().to_set() =~= mid_blocks.dom());
            assert(mid_free.take(fl as int) =~= mid_free);
        }
        let mut ids: Vec<u32> = Vec::new();
        let mut i: u32 = 0;
        while i < n_blocks
            invariant
                self.well_formed(),
                i <= n_blocks,
                bs == self.block_size(),
                bs == old(self).block_size(),
                self.capacity() == old(self).capacity(),
                self.aggressive() == old(self).aggressive(),
                mid_used + n_blocks * bs <= self.capacity(),
                n_blocks > fl ==> mid_next + (n_blocks - fl) <= u32::MAX,
                mid_free.len() == fl,
                ids@.len() == i,
                ids@.no_duplicates(),
                forall|k: int| 0 <= k < i ==> !mid_blocks.dom().contains(#[trigger] ids@[k]),
                forall|k: int| 0 <= k < i ==> #[trigger] ids@[k] == assigned_id(mid_free, mid_next, k),
                forall|k: int| 0 <= k < i ==> self.blocks()[#[trigger] ids@[k]] == allocated_block(
                    ids@[k], req_id, tier, k, bs as u32, stamp(mid_clock, k)),
                self.free_ids() == mid_free.take(if i < fl { fl - i } else { 0 }),
                self.next_block_id() == mid_next + (if i > fl { i - fl } else { 0 }),
                self.blocks().dom() == mid_blocks.dom() + ids@.to_set(),
                forall|id: u32| #[trigger] mid_blocks.dom().contains(id) ==> self.blocks()[id] == mid_blocks[id],
                self.clock() == stamp(mid_clock, i as int),
                self.used() == mid_used + i * bs,
            decreases n_blocks - i,
        {
            proof {
                assert(self.used() + bs <= self.capacity()) by (nonlinear_arith)
                    requires
                        self.used() == mid_used + i * bs,
                        mid_used + n_blocks * bs <= self.capacity(),
                        i < n_blocks;
                assert((i as int) * bs + bs == (i + 1) * bs) by (nonlinear_arith);
            }
            let ghost before = self.blocks();
            let id = self.install_block(req_id, tier, i);
            proof {
                assert(id == assigned_id(mid_free, mid_next, i as int)) by {
                    if (i as int) < fl {
                        assert(self.free_ids() =~= mid_free.take(fl - i - 1));
                    }
                }
                ids@.lemma_push_to_set_commute(id);
                assert(!ids@.to_set().contains(id));
                assert(!ids@.contains(id));
            }
            ids.push(id);
            proof {
                assert(self.free_ids() =~= mid_free.take(if i + 1 < fl { fl - i - 1 } else { 0 }));
                assert(self.blocks().dom() =~= mid_blocks.dom() + ids@.to_set());
                assert forall|k: int| 0 <= k < i + 1 implies self.blocks()[#[trigger] ids@[k]] == allocated_block(
                    ids@[k], req_id, tier, k, bs as u32, stamp(mid_clock, k)) by {
                    if k < i {
                        assert(before.dom().contains(ids@[k]));
                    }
                }
                assert forall|id2: u32| #[trigger] mid_blocks.dom().contains(id2) implies self.blocks()[id2] == mid_blocks[id2] by {
                    assert(before.dom().contains(id2));
                }
            }
            i = i + 1;
        }
        Ok(ids)
    }
}

} // verus!
