//! Per-request token-stream state machine.
//!
//! The router is the only component that sees every generated token. Each
//! tracked request has an entry (its [`ThinkPhase`] and the router tick at
//! which it was last active) in a `DashMap` keyed by request id. The router
//! keeps an exact count of the entries, and a monotonic tick that orders
//! activity for the idle reaper.

use vstd::prelude::*;
use dashmap::DashMap;
use std::collections::hash_map::RandomState;

use crate::types::{BudgetForceReason, PhaseEvent, ThinkPhase, phase_kind, phase_rank};

verus! {

// ---------------------------------------------------------------------------
// The entry map
// ---------------------------------------------------------------------------

/// `dashmap::DashMap`, declared opaque: what a map holds is named by
/// [`router_entries`] and changed only through the calls below.
#[verifier::external_type_specification]
#[verifier::external_body]
#[verifier::reject_recursive_types(K)]
#[verifier::reject_recursive_types(V)]
#[verifier::reject_recursive_types(S)]
pub struct ExDashMap<K, V, S>(DashMap<K, V, S>);

/// Per-request state held by the router.
#[derive(Debug, Clone, Copy, PartialEq, Eq, Structural)]
pub struct RouterEntry {
    /// Current phase.
    pub phase: ThinkPhase,
    /// Router tick of the last activity on this request.
    pub last_touch: u64,
}

/// The map a router keeps its entries in.
pub type EntryMap = DashMap<u64, RouterEntry, RandomState>;

/// The entries a router's `DashMap` holds, by request id.
pub uninterp spec fn router_entries(m: EntryMap) -> Map<u64, RouterEntry>;

/// `DashMap::with_capacity`: a new map holds no entries; the capacity only
/// sizes the initial allocation.
#[verifier::external_body]
fn entries_with_capacity(capacity: usize) -> (fresh: EntryMap)
    ensures
        router_entries(fresh).dom() == Set::<u64>::empty(),
{
    DashMap::with_capacity(capacity)
}

/// `DashMap::get`: the entry stored under `key`, copied out of the guard.
#[verifier::external_body]
fn entry_get(m: &EntryMap, key: u64) -> (r: Option<RouterEntry>)
    ensures
        r == (if router_entries(*m).contains_key(key) {
            Some(router_entries(*m)[key])
        } else {
            None
        }),
{
    m.get(&key).map(|e| *e.value())
}

/// `DashMap::insert`: stores `value` under `key`, replacing and returning
/// any previous entry.
#[verifier::external_body]
fn entry_insert(m: &mut EntryMap, key: u64, value: RouterEntry) -> (prev: Option<RouterEntry>)
    ensures
        router_entries(*final(m)) == router_entries(*old(m)).insert(key, value),
        prev == (if router_entries(*old(m)).contains_key(key) {
            Some(router_entries(*old(m))[key])
        } else {
            None
        }),
{
    m.insert(key, value)
}

/// `DashMap::remove`: removes the entry under `key`, returning it with its key.
#[verifier::external_body]
fn entry_remove(m: &mut EntryMap, key: u64) -> (r: Option<(u64, RouterEntry)>)
    ensures
        router_entries(*final(m)) == router_entries(*old(m)).remove(key),
        r == (if router_entries(*old(m)).contains_key(key) {
            Some((key, router_entries(*old(m))[key]))
        } else {
            None
        }),
{
    m.remove(&key)
}

/// `DashMap::iter`, collected: every entry exactly once, as a key and a copy
/// of its value, in the order the shards are walked (left unstated).
#[verifier::external_body]
fn entry_snapshot(m: &EntryMap) -> (items: Vec<(u64, RouterEntry)>)
    ensures
        forall|i: int| 0 <= i < items@.len() ==> {
            &&& router_entries(*m).contains_key(#[trigger] items@[i].0)
            &&& router_entries(*m)[items@[i].0] == items@[i].1
        },
        forall|k: u64| router_entries(*m).contains_key(k) ==> exists|i: int| 0 <= i < items@.len() && #[trigger] items@[i].0 == k,
        forall|i: int, j: int| 0 <= i < j < items@.len() ==> items@[i].0 != items@[j].0,
{
    m.iter().map(|item| (*item.key(), *item.value())).collect()
}

// ---------------------------------------------------------------------------
// Configuration
// ---------------------------------------------------------------------------

/// The token boundaries and think budget the state machine reads.
#[derive(Debug, Clone)]
pub struct PhaseRouterConfig {
    /// Minimum think tokens before an entropy verdict may force the budget.
    pub min_think_tokens: u32,
    /// Absolute hard cap on think tokens (safety valve).
    pub max_think_tokens: u32,
    /// Token ids that signal `<think>` start.
    pub think_start_ids: Vec<u32>,
    /// Token ids that signal `</think>` end; the first is the one injected
    /// when the budget is forced.
    pub think_end_ids: Vec<u32>,
    /// EOS token ids.
    pub eos_ids: Vec<u32>,
}

impl Default for PhaseRouterConfig {
    /// Budget 512..=32 768 think tokens, no boundary ids.
    fn default() -> (c: Self)
        ensures
            c.min_think_tokens == 512,
            c.max_think_tokens == 32_768,
            c.think_start_ids@ == Seq::<u32>::empty(),
            c.think_end_ids@ == Seq::<u32>::empty(),
            c.eos_ids@ == Seq::<u32>::empty(),
    {
        PhaseRouterConfig {
            min_think_tokens: 512,
            max_think_tokens: 32_768,
            think_start_ids: Vec::new(),
            think_end_ids: Vec::new(),
            eos_ids: Vec::new(),
        }
    }
}

impl PhaseRouterConfig {
    /// The given think-boundary ids with the default think budget.
    pub fn with_boundary_ids(start: Vec<u32>, end: Vec<u32>, eos: Vec<u32>) -> (c: Self)
        ensures
            c.min_think_tokens == 512,
            c.max_think_tokens == 32_768,
            c.think_start_ids@ == start@,
            c.think_end_ids@ == end@,
            c.eos_ids@ == eos@,
    {
        PhaseRouterConfig {
            min_think_tokens: 512,
            max_think_tokens: 32_768,
            think_start_ids: start,
            think_end_ids: end,
            eos_ids: eos,
        }
    }
}

/// `true` if `ids` holds `token`.
fn holds_id(ids: &Vec<u32>, token: u32) -> (b: bool)
    ensures
        b == ids@.contains(token),
{
    let mut k: usize = 0;
    while k < ids.len()
        invariant
            k <= ids@.len(),
            forall|i: int| 0 <= i < k ==> ids@[i] != token,
        decreases ids@.len() - k,
    {
        if ids[k] == token {
            return true;
        }
        k = k + 1;
    }
    false
}

// ---------------------------------------------------------------------------
// The transition function
// ---------------------------------------------------------------------------

/// What a fresh entropy probe sample says about a think phase, once the
/// caller has folded it into its moving averages.
#[derive(Debug, Clone, Copy, PartialEq, Eq, Structural)]
pub struct EntropyVerdict {
    /// The variance of the EAT moving average is below the convergence
    /// threshold: the model is willing to stop.
    pub eat_settled: bool,
    /// The local transition-token rate exceeds the global one by more than
    /// the overthinking ratio (with a non-negligible global rate).
    pub rpdi_spiking: bool,
}

/// The reason, if any, to force the budget of a think phase that has just
/// reached `tokens` tokens. An entropy verdict counts only past the minimum
/// budget, convergence wins over overthinking, and the hard cap fires when
/// no verdict did; nothing fires while a force is already in progress.
pub open spec fn force_reason(
    cfg: PhaseRouterConfig,
    tokens: u32,
    force_in_progress: bool,
    verdict: Option<EntropyVerdict>,
) -> Option<BudgetForceReason> {
    let past_floor = tokens > cfg.min_think_tokens;
    let from_signal = match verdict {
        Some(v) => if force_in_progress {
            None
        } else if past_floor && v.eat_settled {
            Some(BudgetForceReason::Converged)
        } else if past_floor && v.rpdi_spiking {
            Some(BudgetForceReason::Overthinking)
        } else {
            None
        },
        None => None,
    };
    if from_signal is None && tokens >= cfg.max_think_tokens && !force_in_progress {
        Some(BudgetForceReason::HardCap)
    } else {
        from_signal
    }
}

/// The next phase and the event for one token.
pub open spec fn phase_step(
    cfg: PhaseRouterConfig,
    phase: ThinkPhase,
    token: u32,
    verdict: Option<EntropyVerdict>,
) -> (ThinkPhase, PhaseEvent) {
    match phase {
        ThinkPhase::Prefill => if cfg.think_start_ids@.contains(token) {
            (ThinkPhase::ThinkDecode { tokens_so_far: 0, force_in_progress: false }, PhaseEvent::EnterThink)
        } else if cfg.eos_ids@.contains(token) {
            (ThinkPhase::Complete, PhaseEvent::Complete)
        } else {
            (ThinkPhase::OutputDecode { think_tokens_used: 0 }, PhaseEvent::NoEvent)
        },
        ThinkPhase::ThinkDecode { tokens_so_far, force_in_progress } => {
            let n = (tokens_so_far + 1) as u32;
            if cfg.think_end_ids@.contains(token) {
                (ThinkPhase::OutputDecode { think_tokens_used: n }, PhaseEvent::ExitThink { tokens_used: n })
            } else {
                match force_reason(cfg, n, force_in_progress, verdict) {
                    Some(r) => if cfg.think_end_ids@.len() > 0 {
                        (
                            ThinkPhase::ThinkDecode { tokens_so_far: n, force_in_progress: true },
                            PhaseEvent::ForceBudget { inject_token: cfg.think_end_ids@[0], reason: r },
                        )
                    } else {
                        (ThinkPhase::ThinkDecode { tokens_so_far: n, force_in_progress }, PhaseEvent::NoEvent)
                    },
                    None => (
                        ThinkPhase::ThinkDecode { tokens_so_far: n, force_in_progress },
                        PhaseEvent::NoEvent,
                    ),
                }
            }
        },
        ThinkPhase::OutputDecode { think_tokens_used } => if cfg.eos_ids@.contains(token) {
            (ThinkPhase::Complete, PhaseEvent::Complete)
        } else {
            (phase, PhaseEvent::NoEvent)
        },
        ThinkPhase::Complete => (ThinkPhase::Complete, PhaseEvent::NoEvent),
    }
}

/// The phases in which a step cannot be taken: a think phase whose token
/// counter is at `u32::MAX`.
pub open spec fn step_blocked(phase: ThinkPhase) -> bool {
    match phase {
        ThinkPhase::ThinkDecode { tokens_so_far, .. } => tokens_so_far == u32::MAX,
        _ => false,
    }
}

/// The tick below which an entry counts as idle, for a sweep at tick `now`
/// with threshold `older_than` (saturating at zero).
pub open spec fn idle_cutoff(now: u64, older_than: u64) -> int {
    if older_than <= now {
        now - older_than
    } else {
        0
    }
}

/// The requests whose last activity is strictly older than `cutoff`.
pub open spec fn idle_ids(entries: Map<u64, RouterEntry>, cutoff: int) -> Set<u64> {
    entries.dom().filter(|k: u64| entries[k].last_touch < cutoff)
}

// ---------------------------------------------------------------------------
// The router
// ---------------------------------------------------------------------------

/// The phase router: one entry per tracked request, an exact count of them,
/// and a monotonic tick.
#[derive(Debug)]
pub struct PhaseRouter {
    state: EntryMap,
    live: usize,
    clock: u64,
    config: PhaseRouterConfig,
}

impl PhaseRouter {
    /// Tracked requests and their entries.
    pub closed spec fn entries(&self) -> Map<u64, RouterEntry> {
        router_entries(self.state)
    }

    /// The tick the next activity will be stamped with.
    pub closed spec fn clock(&self) -> u64 {
        self.clock
    }

    /// The configuration in effect.
    pub closed spec fn config_spec(&self) -> PhaseRouterConfig {
        self.config
    }

    /// The entry map is finite and the tracked count is its exact size.
    pub closed spec fn well_formed(&self) -> bool {
        &&& router_entries(self.state).dom().finite()
        &&& self.live as nat == router_entries(self.state).dom().len()
    }

    /// A router with no tracked request; the first activity is stamped `1`.
    pub fn new(config: PhaseRouterConfig) -> (r: Self)
        ensures
            r.well_formed(),
            r.entries() == Map::<u64, RouterEntry>::empty(),
            r.clock() == 1,
            r.config_spec() == config,
    {
        let r = PhaseRouter { state: entries_with_capacity(1024), live: 0, clock: 1, config };
        assert(r.entries() =~= Map::<u64, RouterEntry>::empty());
        r
    }

    /// The configuration in effect.
    pub fn config(&self) -> (c: &PhaseRouterConfig)
        ensures
            *c == self.config_spec(),
    {
        &self.config
    }

    /// Stamp for the current activity; the tick then advances (wrapping).
    fn tick(&mut self) -> (t: u64)
        ensures
            t == old(self).clock(),
            final(self).clock() == old(self).clock().wrapping_add(1),
            final(self).entries() == old(self).entries(),
            final(self).config_spec() == old(self).config_spec(),
            final(self).live == old(self).live,
    {
        let t = self.clock;
        self.clock = self.clock.wrapping_add(1);
        t
    }

    /// The tick the next activity will be stamped with.
    pub fn ticks(&self) -> (t: u64)
        ensures
            t == self.clock(),
    {
        self.clock
    }

    /// `true` when [`Self::on_token`] cannot take a step for `req_id`: the
    /// request is tracked and [`step_blocked`] holds of its phase.
    pub fn step_is_blocked(&self, req_id: u64) -> (b: bool)
        ensures
            b == (self.entries().contains_key(req_id) && step_blocked(self.entries()[req_id].phase)),
    {
        match entry_get(&self.state, req_id) {
            Some(e) => match e.phase {
                ThinkPhase::ThinkDecode { tokens_so_far, .. } => tokens_so_far == u32::MAX,
                _ => false,
            },
            None => false,
        }
    }

    /// The entry map of a well-formed router is finite.
    pub proof fn lemma_entries_finite(&self)
        requires
            self.well_formed(),
        ensures
            self.entries().dom().finite(),
    {
    }

    /// Number of requests currently tracked. Exact.
    pub fn tracked_requests(&self) -> (n: usize)
        requires
            self.well_formed(),
        ensures
            n == self.entries().dom().len(),
    {
        self.live
    }

    /// Register a request in `Prefill`, stamped with the current tick.
    /// Idempotent: an id already tracked is left as it is (its stamp is not
    /// refreshed, and the tick does not advance).
    pub fn register(&mut self, req_id: u64)
        requires
            old(self).well_formed(),
            old(self).entries().dom().len() < usize::MAX,
        ensures
            final(self).well_formed(),
            final(self).config_spec() == old(self).config_spec(),
            old(self).entries().contains_key(req_id) ==> {
                &&& final(self).entries() == old(self).entries()
                &&& final(self).clock() == old(self).clock()
            },
            !old(self).entries().contains_key(req_id) ==> {
                &&& final(self).entries() == old(self).entries().insert(
                    req_id,
                    RouterEntry { phase: ThinkPhase::Prefill, last_touch: old(self).clock() },
                )
                &&& final(self).clock() == old(self).clock().wrapping_add(1)
            },
    {
        match entry_get(&self.state, req_id) {
            Some(_) => {},
            None => {
                let t = self.tick();
                let _ = entry_insert(&mut self.state, req_id, RouterEntry { phase: ThinkPhase::Prefill, last_touch: t });
                self.live = self.live + 1;
            },
        }
    }

    /// Drop the tracked state of a request; a no-op for an unknown id.
    pub fn reap(&mut self, req_id: u64)
        requires
            old(self).well_formed(),
        ensures
            final(self).well_formed(),
            final(self).entries() == old(self).entries().remove(req_id),
            final(self).clock() == old(self).clock(),
            final(self).config_spec() == old(self).config_spec(),
    {
        match entry_remove(&mut self.state, req_id) {
            Some(_) => {
                self.live = self.live - 1;
            },
            None => {},
        }
    }

    /// Mark a request as active now, so the next idle sweep keeps it. A
    /// no-op (and no tick) for an unknown id.
    pub fn touch(&mut self, req_id: u64)
        requires
            old(self).well_formed(),
        ensures
            final(self).well_formed(),
            final(self).config_spec() == old(self).config_spec(),
            old(self).entries().contains_key(req_id) ==> {
                &&& final(self).entries() == old(self).entries().insert(
                    req_id,
                    RouterEntry { phase: old(self).entries()[req_id].phase, last_touch: old(self).clock() },
                )
                &&& final(self).clock() == old(self).clock().wrapping_add(1)
            },
            !old(self).entries().contains_key(req_id) ==> {
                &&& final(self).entries() == old(self).entries()
                &&& final(self).clock() == old(self).clock()
            },
    {
        match entry_get(&self.state, req_id) {
            Some(e) => {
                let t = self.tick();
                let _ = entry_insert(&mut self.state, req_id, RouterEntry { phase: e.phase, last_touch: t });
                proof {
                    assert(self.entries().dom() =~= old(self).entries().dom());
                }
            },
            None => {},
        }
    }

    /// The current phase of a request, or `None` if it is not tracked.
    pub fn phase_of(&self, req_id: u64) -> (p: Option<ThinkPhase>)
        ensures
            p == (if self.entries().contains_key(req_id) {
                Some(self.entries()[req_id].phase)
            } else {
                None
            }),
    {
        match entry_get(&self.state, req_id) {
            Some(e) => Some(e.phase),
            None => None,
        }
    }

    /// The phase of a request as one of `"prefill"`, `"think_decode"`,
    /// `"output_decode"`, `"complete"`, or `None` if it is not tracked.
    pub fn phase_of_kind(&self, req_id: u64) -> (k: Option<&'static str>)
        ensures
            k is Some <==> self.entries().contains_key(req_id),
            k matches Some(s) ==> s@ == phase_kind(self.entries()[req_id].phase),
    {
        match entry_get(&self.state, req_id) {
            Some(e) => Some(
                match e.phase {
                    ThinkPhase::Prefill => "prefill",
                    ThinkPhase::ThinkDecode { .. } => "think_decode",
                    ThinkPhase::OutputDecode { .. } => "output_decode",
                    ThinkPhase::Complete => "complete",
                },
            ),
            None => None,
        }
    }

    /// Process one decoded token of a request and return the event the
    /// scheduler sees. The request's entry moves by [`phase_step`] and is
    /// stamped with the current tick. An unknown request yields `NoEvent`
    /// and changes nothing.
    ///
    /// `verdict` is the reading of a fresh entropy probe sample, if one was
    /// taken for this token.
    pub fn on_token(&mut self, req_id: u64, token_id: u32, verdict: Option<EntropyVerdict>) -> (ev: PhaseEvent)
        requires
            old(self).well_formed(),
            old(self).entries().contains_key(req_id) ==> !step_blocked(old(self).entries()[req_id].phase),
        ensures
            final(self).well_formed(),
            final(self).config_spec() == old(self).config_spec(),
            !old(self).entries().contains_key(req_id) ==> {
                &&& ev == PhaseEvent::NoEvent
                &&& final(self).entries() == old(self).entries()
                &&& final(self).clock() == old(self).clock()
            },
            old(self).entries().contains_key(req_id) ==> {
                &&& ev == phase_step(old(self).config_spec(), old(self).entries()[req_id].phase, token_id, verdict).1
                &&& final(self).entries() == old(self).entries().insert(
                    req_id,
                    RouterEntry {
                        phase: phase_step(
                            old(self).config_spec(),
                            old(self).entries()[req_id].phase,
                            token_id,
                            verdict,
                        ).0,
                        last_touch: old(self).clock(),
                    },
                )
                &&& final(self).clock() == old(self).clock().wrapping_add(1)
            },
            old(self).entries().contains_key(req_id) && old(self).entries()[req_id].phase is OutputDecode
                && !old(self).config_spec().eos_ids@.contains(token_id) ==> {
                &&& ev == PhaseEvent::NoEvent
                &&& final(self).entries()[req_id].phase == old(self).entries()[req_id].phase
            },
    {
        let e = match entry_get(&self.state, req_id) {
            Some(e) => e,
            None => {
                return PhaseEvent::NoEvent;
            },
        };
        let t = self.tick();
        let (next, ev) = match e.phase {
            ThinkPhase::Prefill => {
                if holds_id(&self.config.think_start_ids, token_id) {
                    (ThinkPhase::ThinkDecode { tokens_so_far: 0, force_in_progress: false }, PhaseEvent::EnterThink)
                } else if holds_id(&self.config.eos_ids, token_id) {
                    (ThinkPhase::Complete, PhaseEvent::Complete)
                } else {
                    (ThinkPhase::OutputDecode { think_tokens_used: 0 }, PhaseEvent::NoEvent)
                }
            },
            ThinkPhase::ThinkDecode { tokens_so_far, force_in_progress } => {
                let n = tokens_so_far + 1;
                let mut reason: Option<BudgetForceReason> = None;
                match verdict {
                    Some(v) => {
                        let past_floor = n > self.config.min_think_tokens;
                        if !force_in_progress {
                            if past_floor && v.eat_settled {
                                reason = Some(BudgetForceReason::Converged);
                            } else if past_floor && v.rpdi_spiking {
                                reason = Some(BudgetForceReason::Overthinking);
                            }
                        }
                    },
                    None => {},
                }
                if n >= self.config.max_think_tokens && !force_in_progress && reason.is_none() {
                    reason = Some(BudgetForceReason::HardCap);
                }
                proof {
                    assert(reason == force_reason(self.config, n, force_in_progress, verdict));
                }
                if holds_id(&self.config.think_end_ids, token_id) {
                    (ThinkPhase::OutputDecode { think_tokens_used: n }, PhaseEvent::ExitThink { tokens_used: n })
                } else {
                    match reason {
                        Some(r) => if self.config.think_end_ids.len() > 0 {
                            (
                                ThinkPhase::ThinkDecode { tokens_so_far: n, force_in_progress: true },
                                PhaseEvent::ForceBudget { inject_token: self.config.think_end_ids[0], reason: r },
                            )
                        } else {
                            (ThinkPhase::ThinkDecode { tokens_so_far: n, force_in_progress }, PhaseEvent::NoEvent)
                        },
                        None => (ThinkPhase::ThinkDecode { tokens_so_far: n, force_in_progress }, PhaseEvent::NoEvent),
                    }
                }
            },
            ThinkPhase::OutputDecode { think_tokens_used } => {
                if holds_id(&self.config.eos_ids, token_id) {
                    (ThinkPhase::Complete, PhaseEvent::Complete)
                } else {
                    (e.phase, PhaseEvent::NoEvent)
                }
            },
            ThinkPhase::Complete => (ThinkPhase::Complete, PhaseEvent::NoEvent),
        };
        let _ = entry_insert(&mut self.state, req_id, RouterEntry { phase: next, last_touch: t });
        proof {
            assert(self.entries().dom() =~= old(self).entries().dom());
        }
        ev
    }

    /// Reap every request whose last activity is older than
    /// `older_than_ticks` ticks before now; returns how many were reaped.
    /// The sweep itself takes a tick ("now").
    pub fn reap_stale(&mut self, older_than_ticks: u64) -> (n: usize)
        requires
            old(self).well_formed(),
        ensures
            final(self).well_formed(),
            final(self).config_spec() == old(self).config_spec(),
            final(self).clock() == old(self).clock().wrapping_add(1),
            final(self).entries() == old(self).entries().remove_keys(
                idle_ids(old(self).entries(), idle_cutoff(old(self).clock(), older_than_ticks)),
            ),
            n == idle_ids(old(self).entries(), idle_cutoff(old(self).clock(), older_than_ticks)).len(),
            n + final(self).entries().dom().len() == old(self).entries().dom().len(),
            forall|k: u64| #[trigger] final(self).entries().contains_key(k) <==> {
                &&& old(self).entries().contains_key(k)
                &&& old(self).entries()[k].last_touch >= idle_cutoff(old(self).clock(), older_than_ticks)
            },
            forall|k: u64| #[trigger] final(self).entries().contains_key(k)
                ==> final(self).entries()[k] == old(self).entries()[k],
    {
        let now = self.tick();
        let cutoff = now.saturating_sub(older_than_ticks);
        let ghost m0 = self.entries();
        let ghost idle = idle_ids(m0, idle_cutoff(now, older_than_ticks));
        let items = entry_snapshot(&self.state);
        let mut stale: Vec<u64> = Vec::new();
        let mut i: usize = 0;
        while i < items.len()
            invariant
                i <= items@.len(),
                m0 == router_entries(self.state),
                cutoff == idle_cutoff(now, older_than_ticks),
                forall|j: int| 0 <= j < items@.len() ==> {
                    &&& m0.contains_key(#[trigger] items@[j].0)
                    &&& m0[items@[j].0] == items@[j].1
                },
                forall|a: int, b: int| 0 <= a < b < items@.len() ==> items@[a].0 != items@[b].0,
                forall|x: u64| stale@.contains(x) <==> exists|j: int| 0 <= j < i && #[trigger] items@[j].0 == x && items@[j].1.last_touch < cutoff,
                stale@.no_duplicates(),
            decreases items@.len() - i,
        {
            let (key, entry) = items[i];
            if entry.last_touch < cutoff {
                proof {
                    assert(!stale@.contains(key)) by {
                        if stale@.contains(key) {
                            let j = choose|j: int| 0 <= j < i && #[trigger] items@[j].0 == key && items@[j].1.last_touch < cutoff;
                            assert(items@[j].0 != items@[i as int].0);
                        }
                    }
                }
                let ghost prev = stale@;
                stale.push(key);
                proof {
                    assert forall|x: u64| stale@.contains(x) <==> (prev.contains(x) || x == key) by {
                        if stale@.contains(x) {
                            let a = choose|a: int| 0 <= a < stale@.len() && stale@[a] == x;
                            if a < prev.len() {
                                assert(prev[a] == x);
                            }
                        }
                        if prev.contains(x) {
                            let a = choose|a: int| 0 <= a < prev.len() && prev[a] == x;
                            assert(stale@[a] == x);
                        }
                        if x == key {
                            assert(stale@[prev.len() as int] == x);
                        }
                    }
                    assert forall|x: u64| stale@.contains(x) <==> exists|j: int| 0 <= j < i + 1 && #[trigger] items@[j].0 == x && items@[j].1.last_touch < cutoff by {
                        if exists|j: int| 0 <= j < i + 1 && #[trigger] items@[j].0 == x && items@[j].1.last_touch < cutoff {
                            let j = choose|j: int| 0 <= j < i + 1 && #[trigger] items@[j].0 == x && items@[j].1.last_touch < cutoff;
                            if j < i {
                                assert(prev.contains(x));
                            } else {
                                assert(x == key);
                            }
                        }
                        if prev.contains(x) {
                            let j = choose|j: int| 0 <= j < i && #[trigger] items@[j].0 == x && items@[j].1.last_touch < cutoff;
                            assert(0 <= j < i + 1 && items@[j].0 == x && items@[j].1.last_touch < cutoff);
                        }
                        if x == key {
                            assert(0 <= i < i + 1 && items@[i as int].0 == x && items@[i as int].1.last_touch < cutoff);
                        }
                    }
                }
            } else {
                proof {
                    assert forall|x: u64| stale@.contains(x) <==> exists|j: int| 0 <= j < i + 1 && #[trigger] items@[j].0 == x && items@[j].1.last_touch < cutoff by {
                        if exists|j: int| 0 <= j < i + 1 && #[trigger] items@[j].0 == x && items@[j].1.last_touch < cutoff {
                            let j = choose|j: int| 0 <= j < i + 1 && #[trigger] items@[j].0 == x && items@[j].1.last_touch < cutoff;
                            assert(j < i);
                        }
                    }
                }
            }
            i = i + 1;
        }
        proof {
            assert forall|x: u64| stale@.to_set().contains(x) <==> idle.contains(x) by {
                if idle.contains(x) {
                    assert(m0.contains_key(x));
                    let j = choose|j: int| 0 <= j < items@.len() && #[trigger] items@[j].0 == x;
                    assert(items@[j].0 == x && items@[j].1.last_touch < cutoff);
                    assert(stale@.contains(x));
                }
                if stale@.contains(x) {
                    let j = choose|j: int| 0 <= j < i && #[trigger] items@[j].0 == x && items@[j].1.last_touch < cutoff;
                    assert(m0.contains_key(items@[j].0));
                }
            }
            assert(stale@.to_set() =~= idle);
            stale@.unique_seq_to_set();
        }
        let mut k: usize = 0;
        while k < stale.len()
            invariant
                k <= stale@.len(),
                stale@.no_duplicates(),
                stale@.to_set() == idle,
                idle.subset_of(m0.dom()),
                m0.dom().finite(),
                self.well_formed(),
                self.entries() == m0.remove_keys(stale@.take(k as int).to_set()),
                self.entries().dom().len() + k == m0.dom().len(),
                self.clock() == old(self).clock().wrapping_add(1),
                self.config_spec() == old(self).config_spec(),
            decreases stale@.len() - k,
        {
            let key = stale[k];
            proof {
                assert(stale@.to_set().contains(key));
                assert(!stale@.take(k as int).contains(key)) by {
                    if stale@.take(k as int).contains(key) {
                        let a = choose|a: int| 0 <= a < k && stale@.take(k as int)[a] == key;
                        assert(stale@[a] == stale@[k as int]);
                    }
                }
                assert(self.entries().contains_key(key));
            }
            match entry_remove(&mut self.state, key) {
                Some(_) => {
                    self.live = self.live - 1;
                },
                None => {},
            }
            proof {
                stale@.take(k as int).lemma_push_to_set_commute(key);
                assert(stale@.take(k as int + 1) =~= stale@.take(k as int).push(key));
                assert(self.entries() =~= m0.remove_keys(stale@.take(k as int + 1).to_set()));
            }
            k = k + 1;
        }
        proof {
            assert(stale@.take(k as int) =~= stale@);
        }
        stale.len()
    }
}


// ---------------------------------------------------------------------------
// Laws of the state machine
// ---------------------------------------------------------------------------

/// A phase never regresses: each token moves a request forward in
/// `Prefill -> ThinkDecode -> OutputDecode -> Complete` or leaves it where it
/// is, and `Complete` is absorbing and silent.
pub proof fn lemma_phase_never_regresses(
    cfg: PhaseRouterConfig,
    phase: ThinkPhase,
    token: u32,
    verdict: Option<EntropyVerdict>,
)
    ensures
        phase_rank(phase_step(cfg, phase, token, verdict).0) >= phase_rank(phase),
        phase is Complete ==> phase_step(cfg, phase, token, verdict) == (ThinkPhase::Complete, PhaseEvent::NoEvent),
{
}

/// Once a budget force is in progress, no further `ForceBudget` is emitted
/// for the same think phase, whatever the token or the verdict.
pub proof fn lemma_force_budget_at_most_once(
    cfg: PhaseRouterConfig,
    tokens_so_far: u32,
    token: u32,
    verdict: Option<EntropyVerdict>,
)
    ensures
        ({
            let (next, event) = phase_step(
                cfg,
                ThinkPhase::ThinkDecode { tokens_so_far, force_in_progress: true },
                token,
                verdict,
            );
            &&& !(event is ForceBudget)
            &&& next is ThinkDecode ==> next->force_in_progress
        }),
{
}

/// On the inputs where a step can be taken, a forced budget injects the
/// first think-end id and marks the force as in progress; an entropy reason fires only past `min_think_tokens`, and
/// the hard cap only at `max_think_tokens` or beyond.
pub proof fn lemma_force_budget_reasons(
    cfg: PhaseRouterConfig,
    phase: ThinkPhase,
    token: u32,
    verdict: Option<EntropyVerdict>,
)
    requires
        !step_blocked(phase),
    ensures
        ({
            let (next, event) = phase_step(cfg, phase, token, verdict);
            event matches PhaseEvent::ForceBudget { inject_token, reason } ==> {
                &&& phase matches ThinkPhase::ThinkDecode { force_in_progress: false, .. }
                &&& next matches ThinkPhase::ThinkDecode { tokens_so_far, force_in_progress: true }
                &&& tokens_so_far == phase->tokens_so_far + 1
                &&& inject_token == cfg.think_end_ids@[0]
                &&& !cfg.think_end_ids@.contains(token)
                &&& (reason is Converged || reason is Overthinking) ==> tokens_so_far > cfg.min_think_tokens
                &&& reason is Converged ==> (verdict matches Some(v) && v.eat_settled)
                &&& reason is Overthinking ==> (verdict matches Some(v) && v.rpdi_spiking)
                &&& reason is HardCap ==> tokens_so_far >= cfg.max_think_tokens
            }
        }),
{
}

/// The hard cap is a safety valve that needs no entropy signal: a think
/// phase with no force in progress that reaches `max_think_tokens` on a
/// token other than a think-end id forces the budget, given a think-end id
/// to inject.
pub proof fn lemma_hard_cap_always_forces(
    cfg: PhaseRouterConfig,
    tokens_so_far: u32,
    token: u32,
    verdict: Option<EntropyVerdict>,
)
    requires
        tokens_so_far < u32::MAX,
        tokens_so_far + 1 >= cfg.max_think_tokens,
        cfg.think_end_ids@.len() > 0,
        !cfg.think_end_ids@.contains(token),
    ensures
        phase_step(
            cfg,
            ThinkPhase::ThinkDecode { tokens_so_far, force_in_progress: false },
            token,
            verdict,
        ).1 is ForceBudget,
{
}

/// Every token of a think phase is counted, the `</think>` token included:
/// a think-end id closes the phase with `tokens_used` one more than the
/// count before it, and any other token (a nested `<think>` among them)
/// keeps the phase open with the count advanced by one.
pub proof fn lemma_think_tokens_counted(
    cfg: PhaseRouterConfig,
    tokens_so_far: u32,
    force_in_progress: bool,
    token: u32,
    verdict: Option<EntropyVerdict>,
)
    requires
        tokens_so_far < u32::MAX,
    ensures
        ({
            let (next, event) = phase_step(
                cfg,
                ThinkPhase::ThinkDecode { tokens_so_far, force_in_progress },
                token,
                verdict,
            );
            &&& cfg.think_end_ids@.contains(token) ==> {
                &&& next == ThinkPhase::OutputDecode { think_tokens_used: (tokens_so_far + 1) as u32 }
                &&& event == PhaseEvent::ExitThink { tokens_used: (tokens_so_far + 1) as u32 }
            }
            &&& !cfg.think_end_ids@.contains(token) ==> (next matches ThinkPhase::ThinkDecode { tokens_so_far: n, .. } && n == tokens_so_far + 1)
        }),
{
}

/// With no think-end id configured there is nothing to inject, so the
/// budget is never forced: the step that would force it emits no event.
pub proof fn lemma_no_end_ids_never_force(
    cfg: PhaseRouterConfig,
    phase: ThinkPhase,
    token: u32,
    verdict: Option<EntropyVerdict>,
)
    requires
        cfg.think_end_ids@.len() == 0,
    ensures
        !(phase_step(cfg, phase, token, verdict).1 is ForceBudget),
{
}

/// The first token out of prefill decides the path: a think-start id opens
/// a think phase with no token counted and no force in progress, an EOS id
/// completes the request at once, and any other token moves a model that does
/// not reason straight to the output phase with no think tokens spent.
pub proof fn lemma_prefill_exits(
    cfg: PhaseRouterConfig,
    token: u32,
    verdict: Option<EntropyVerdict>,
)
    ensures
        cfg.think_start_ids@.contains(token) ==> phase_step(cfg, ThinkPhase::Prefill, token, verdict)
            == (ThinkPhase::ThinkDecode { tokens_so_far: 0, force_in_progress: false }, PhaseEvent::EnterThink),
        !cfg.think_start_ids@.contains(token) && cfg.eos_ids@.contains(token)
            ==> phase_step(cfg, ThinkPhase::Prefill, token, verdict) == (ThinkPhase::Complete, PhaseEvent::Complete),
        !cfg.think_start_ids@.contains(token) && !cfg.eos_ids@.contains(token)
            ==> phase_step(cfg, ThinkPhase::Prefill, token, verdict)
            == (ThinkPhase::OutputDecode { think_tokens_used: 0 }, PhaseEvent::NoEvent),
{
}

/// In the output phase a token that is not an EOS id changes nothing: the
/// phase, with the count of think tokens spent before it, stays as it is and
/// no event is emitted; an EOS id completes the request.
pub proof fn lemma_output_phase_keeps_think_count(
    cfg: PhaseRouterConfig,
    think_tokens_used: u32,
    token: u32,
    verdict: Option<EntropyVerdict>,
)
    ensures
        !cfg.eos_ids@.contains(token) ==> phase_step(
            cfg,
            ThinkPhase::OutputDecode { think_tokens_used },
            token,
            verdict,
        ) == (ThinkPhase::OutputDecode { think_tokens_used }, PhaseEvent::NoEvent),
        cfg.eos_ids@.contains(token) ==> phase_step(
            cfg,
            ThinkPhase::OutputDecode { think_tokens_used },
            token,
            verdict,
        ) == (ThinkPhase::Complete, PhaseEvent::Complete),
{
}

/// The idle requests are exactly the tracked ones whose last activity is
/// older than the cutoff, whatever phase they are in.
pub proof fn lemma_idle_means_untouched_since(entries: Map<u64, RouterEntry>, cutoff: int)
    ensures
        forall|k: u64| #[trigger] idle_ids(entries, cutoff).contains(k) <==> {
            &&& entries.contains_key(k)
            &&& entries[k].last_touch < cutoff
        },
{
}

/// A sweep whose threshold is `u64::MAX` reaps nothing.
pub proof fn lemma_max_threshold_reaps_nothing(entries: Map<u64, RouterEntry>, now: u64)
    ensures
        idle_ids(entries, idle_cutoff(now, u64::MAX)) == Set::<u64>::empty(),
{
    assert(idle_ids(entries, idle_cutoff(now, u64::MAX)) =~= Set::<u64>::empty());
}

/// A request active at tick `t` survives a sweep at tick `now` whose
/// threshold reaches back to `t`.
pub proof fn lemma_recent_activity_survives(entries: Map<u64, RouterEntry>, req_id: u64, now: u64, older_than: u64)
    requires
        entries.contains_key(req_id),
        entries[req_id].last_touch + older_than >= now,
    ensures
        !idle_ids(entries, idle_cutoff(now, older_than)).contains(req_id),
{
}

} // verus!
