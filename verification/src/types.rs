//! Shared domain types: the budget-force reasons, the phase events the
//! router emits, the three KV tiers, block residency, and the scheduler's
//! queue slots.

use vstd::prelude::*;

verus! {

// ---------------------------------------------------------------------------
// Budget-force diagnostic enum
// ---------------------------------------------------------------------------

/// Reason the router emitted [`PhaseEvent::ForceBudget`].
#[derive(Debug, Clone, Copy, PartialEq, Eq, Hash, Structural)]
pub enum BudgetForceReason {
    /// EAT EMA variance fell below the convergence threshold past the
    /// minimum think budget.
    Converged,
    /// RPDI local/global ratio exceeded the overthinking threshold.
    Overthinking,
    /// `max_think_tokens` reached regardless of any entropy signal.
    HardCap,
}

/// The stable telemetry label of a budget-force reason.
pub open spec fn budget_force_label(r: BudgetForceReason) -> Seq<char> {
    match r {
        BudgetForceReason::Converged => "converged"@,
        BudgetForceReason::Overthinking => "overthinking"@,
        BudgetForceReason::HardCap => "hard_cap"@,
    }
}

impl BudgetForceReason {
    /// Stable string label for telemetry export.
    pub fn as_label(self) -> (label: &'static str)
        ensures
            label@ == budget_force_label(self),
    {
        match self {
            BudgetForceReason::Converged => "converged",
            BudgetForceReason::Overthinking => "overthinking",
            BudgetForceReason::HardCap => "hard_cap",
        }
    }
}

// ---------------------------------------------------------------------------
// Phase events
// ---------------------------------------------------------------------------

/// Event emitted by the phase router for each decoded token.
#[derive(Debug, Clone, Copy, PartialEq, Eq, Structural)]
pub enum PhaseEvent {
    /// Nothing of interest happened on this token.
    NoEvent,
    /// The request transitioned `Prefill -> ThinkDecode`.
    EnterThink,
    /// The request transitioned `ThinkDecode -> OutputDecode`.
    ExitThink {
        /// Number of think tokens consumed in the just-completed phase.
        tokens_used: u32,
    },
    /// The router decided to force `</think>`.
    ForceBudget {
        /// The token id to inject.
        inject_token: u32,
        /// Why the router decided to force the budget.
        reason: BudgetForceReason,
    },
    /// The request reached EOS.
    Complete,
}

// ---------------------------------------------------------------------------
// Think phase state machine
// ---------------------------------------------------------------------------

/// Phase of a request in the router's state machine.
///
/// Transitions are driven by the token stream: `Prefill -> ThinkDecode` on a
/// think-start token, `ThinkDecode -> OutputDecode` on a think-end token,
/// `Prefill | OutputDecode -> Complete` on EOS, and `Prefill -> OutputDecode`
/// on any other token (a model that does not reason). The entropy moving
/// averages of the think phase are kept by the caller that folds the probe
/// samples; the router reads only the verdict they yield.
#[derive(Debug, Clone, Copy, PartialEq, Eq, Structural)]
pub enum ThinkPhase {
    /// Request is still consuming prompt tokens; no decode has begun.
    Prefill,
    /// Request has emitted `<think>` and is producing reasoning tokens.
    ThinkDecode {
        /// Number of think tokens emitted so far in this phase.
        tokens_so_far: u32,
        /// True once a budget-force injection has been scheduled for this
        /// request; prevents a second injection.
        force_in_progress: bool,
    },
    /// Request has emitted `</think>` (or never reasoned) and is producing
    /// user-visible output.
    OutputDecode {
        /// Think tokens consumed before the transition.
        think_tokens_used: u32,
    },
    /// Request reached EOS.
    Complete,
}

/// Position of a phase in the lifecycle (`Prefill` first, `Complete` last).
pub open spec fn phase_rank(p: ThinkPhase) -> nat {
    match p {
        ThinkPhase::Prefill => 0,
        ThinkPhase::ThinkDecode { .. } => 1,
        ThinkPhase::OutputDecode { .. } => 2,
        ThinkPhase::Complete => 3,
    }
}

/// The stable string kind of a phase, as reported to cross-language callers.
pub open spec fn phase_kind(p: ThinkPhase) -> Seq<char> {
    match p {
        ThinkPhase::Prefill => "prefill"@,
        ThinkPhase::ThinkDecode { .. } => "think_decode"@,
        ThinkPhase::OutputDecode { .. } => "output_decode"@,
        ThinkPhase::Complete => "complete"@,
    }
}

// ---------------------------------------------------------------------------
// KV block tiers
// ---------------------------------------------------------------------------

/// Three-tier eviction priority for KV blocks. Lower tiers are evicted first.
#[derive(Debug, Clone, Copy, PartialEq, Eq, PartialOrd, Ord, Hash, Structural)]
pub enum BlockTier {
    /// Think-phase blocks of a request that has left the think phase.
    /// First to evict.
    ThinkComplete,
    /// Think-phase blocks of a request that is still reasoning.
    ThinkActive,
    /// Output-phase blocks. Evicted only as a last resort.
    OutputCritical,
}

/// Position of a tier in the eviction order (`0` is evicted first); also the
/// tier's byte on the wire.
pub open spec fn tier_rank(t: BlockTier) -> nat {
    match t {
        BlockTier::ThinkComplete => 0,
        BlockTier::ThinkActive => 1,
        BlockTier::OutputCritical => 2,
    }
}

/// The stable telemetry label of a tier.
pub open spec fn tier_label(t: BlockTier) -> Seq<char> {
    match t {
        BlockTier::ThinkComplete => "think_complete"@,
        BlockTier::ThinkActive => "think_active"@,
        BlockTier::OutputCritical => "output_critical"@,
    }
}

impl BlockTier {
    /// The tiers in eviction order (`ThinkComplete -> ThinkActive -> OutputCritical`).
    pub fn eviction_order() -> (order: [BlockTier; 3])
        ensures
            order@ == seq![BlockTier::ThinkComplete, BlockTier::ThinkActive, BlockTier::OutputCritical],
            forall|i: int| 0 <= i < 3 ==> tier_rank(#[trigger] order@[i]) == i,
    {
        let order = [BlockTier::ThinkComplete, BlockTier::ThinkActive, BlockTier::OutputCritical];
        assert(order@ =~= seq![BlockTier::ThinkComplete, BlockTier::ThinkActive, BlockTier::OutputCritical]);
        order
    }

    /// Stable telemetry label.
    pub fn as_label(self) -> (label: &'static str)
        ensures
            label@ == tier_label(self),
    {
        match self {
            BlockTier::ThinkComplete => "think_complete",
            BlockTier::ThinkActive => "think_active",
            BlockTier::OutputCritical => "output_critical",
        }
    }

    /// Position of the tier in the eviction order, as a `u8` (the tier's
    /// wire representation).
    pub fn as_u8(self) -> (b: u8)
        ensures
            b as nat == tier_rank(self),
    {
        match self {
            BlockTier::ThinkComplete => 0,
            BlockTier::ThinkActive => 1,
            BlockTier::OutputCritical => 2,
        }
    }
}

/// Physical residency of a KV block.
#[derive(Debug, Clone, Copy, PartialEq, Eq, Hash)]
pub enum BlockLocation {
    /// The block lives in the worker that produced it.
    Local,
    /// The block has been offloaded to a remote KV fabric.
    Remote {
        /// Static label of the fabric (`"nixl-synth"`, ...).
        fabric: &'static str,
    },
}

impl BlockLocation {
    /// Stable telemetry label for the location's kind.
    pub fn kind_label(self) -> (label: &'static str)
        ensures
            self is Local ==> label@ == "local"@,
            self is Remote ==> label@ == "remote"@,
    {
        match self {
            BlockLocation::Local => "local",
            BlockLocation::Remote { .. } => "remote",
        }
    }
}

/// A single KV block tracked by the block manager.
#[derive(Debug)]
pub struct KvBlock {
    /// Stable identifier within the block manager.
    pub block_id: u32,
    /// The request that owns this block.
    pub req_id: u64,
    /// Current eviction tier.
    pub tier: BlockTier,
    /// Half-open sequence-position range this block covers, in tokens.
    pub token_range: core::ops::Range<u32>,
    /// Memory footprint in bytes.
    pub size_bytes: u32,
    /// Logical timestamp of the last access; LRU order inside a tier.
    pub last_access_ns: u64,
}

/// Configuration for Multi-Head Latent Attention block sizing.
#[derive(Debug, Clone, Copy)]
pub struct MlaBlockConfig {
    /// Latent dimension stored per token.
    pub latent_dim: u32,
    /// Bytes per latent element on device.
    pub bytes_per_element: u8,
    /// Tokens per block.
    pub tokens_per_block: u32,
}

impl MlaBlockConfig {
    /// The exact byte size of one block under this layout.
    pub open spec fn spec_block_size(&self) -> int {
        self.latent_dim * self.bytes_per_element * self.tokens_per_block
    }

    /// Size in bytes of a single KV block under this MLA layout. The product
    /// must fit in a `u32`.
    pub fn block_size_bytes(&self) -> (size: u32)
        requires
            self.spec_block_size() <= u32::MAX,
        ensures
            size == self.spec_block_size(),
    {
        let a = self.latent_dim as u64;
        let b = self.bytes_per_element as u64;
        let c = self.tokens_per_block as u64;
        assert(a * b <= 0xffff_ffff * 0xff) by (nonlinear_arith)
            requires a <= 0xffff_ffff, b <= 0xff;
        let ab = a * b;
        assert(ab * c == self.spec_block_size()) by (nonlinear_arith)
            requires ab == a * b, a == self.latent_dim, b == self.bytes_per_element, c == self.tokens_per_block;
        if ab == 0 {
            assert(ab * c == 0) by (nonlinear_arith) requires ab == 0;
            0
        } else {
            assert(c <= ab * c) by (nonlinear_arith) requires ab >= 1;
            (ab * c) as u32
        }
    }
}

// ---------------------------------------------------------------------------
// Scheduler queue types
// ---------------------------------------------------------------------------

/// Scheduling priority assigned to a queued request slot.
#[derive(Debug, Clone, Copy, PartialEq, Eq, PartialOrd, Ord, Hash, Structural)]
pub enum Priority {
    /// Default priority for fresh requests.
    Normal,
    /// Elevated priority after `ExitThink`.
    High,
}

/// A request as seen by the scheduler queues.
#[derive(Debug, Clone, Copy, PartialEq, Eq, Structural)]
pub struct RequestSlot {
    /// Request identifier.
    pub req_id: u64,
    /// Effective scheduling priority.
    pub priority: Priority,
}

/// A batch produced by the scheduler.
#[derive(Debug)]
pub struct ScheduledBatch {
    /// Output-phase slots dispatched this iteration.
    pub output_slots: Vec<RequestSlot>,
    /// Think-phase slots dispatched this iteration.
    pub think_slots: Vec<RequestSlot>,
}

impl ScheduledBatch {
    /// Total number of slots dispatched.
    pub fn len(&self) -> (n: usize)
        requires
            self.output_slots@.len() + self.think_slots@.len() <= usize::MAX,
        ensures
            n == self.output_slots@.len() + self.think_slots@.len(),
    {
        self.output_slots.len() + self.think_slots.len()
    }

    /// `true` if no slots were dispatched.
    pub fn is_empty(&self) -> (b: bool)
        ensures
            b == (self.output_slots@.len() == 0 && self.think_slots@.len() == 0),
    {
        self.output_slots.len() == 0 && self.think_slots.len() == 0
    }
}

} // verus!
