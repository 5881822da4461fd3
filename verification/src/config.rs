//! The integer-valued parts of the configuration: the KV capacity spec, the
//! disaggregation section, the per-model token boundaries, and the checks
//! on the think budget and the KV sizes.

use vstd::prelude::*;

use crate::error::{Error, Result};

verus! {

/// Capacity specification for the KV pool: an absolute byte count, or
/// `Auto` to let the runtime pick a hardware-aware default.
#[derive(Debug, Clone, Copy, PartialEq, Eq, Structural)]
pub enum CapacitySpec {
    /// Use the given absolute capacity in bytes.
    Bytes(u64),
    /// Resolve at runtime to a hardware-aware default.
    Auto,
}

impl CapacitySpec {
    /// The concrete byte budget: the pinned count, or `default_bytes` for `Auto`.
    pub fn resolve(self, default_bytes: u64) -> (bytes: u64)
        ensures
            self matches CapacitySpec::Bytes(n) ==> bytes == n,
            self is Auto ==> bytes == default_bytes,
    {
        match self {
            CapacitySpec::Bytes(n) => n,
            CapacitySpec::Auto => default_bytes,
        }
    }
}

/// Checks the think budget of the scheduler section: the minimum must be
/// below the hard cap.
pub fn check_think_budget(min_think_tokens: u32, max_think_tokens: u32) -> (r: Result<()>)
    ensures
        r is Ok <==> min_think_tokens < max_think_tokens,
        r matches Err(Error::ConfigValidation { field, reason }) ==> {
            &&& field@ == "scheduler.min_think_tokens"@
            &&& reason@ == "must be < scheduler.max_think_tokens"@
        },
        r is Err ==> r matches Err(Error::ConfigValidation { .. }),
{
    if min_think_tokens >= max_think_tokens {
        return Err(
            Error::ConfigValidation {
                field: "scheduler.min_think_tokens",
                reason: "must be < scheduler.max_think_tokens".to_owned(),
            },
        );
    }
    Ok(())
}

/// Checks the sizes of the KV section: a block has a size, and a pinned
/// capacity is not zero. The block size is checked first.
pub fn check_kv_sizes(block_size_bytes: u32, capacity_bytes: CapacitySpec) -> (r: Result<()>)
    ensures
        r is Ok <==> block_size_bytes > 0 && capacity_bytes != CapacitySpec::Bytes(0),
        block_size_bytes == 0 ==> (r matches Err(Error::ConfigValidation { field, reason })
            && field@ == "kv_memory.block_size_bytes"@ && reason@ == "must be > 0"@),
        block_size_bytes > 0 && capacity_bytes == CapacitySpec::Bytes(0) ==> (r matches Err(
            Error::ConfigValidation { field, reason },
        ) && field@ == "kv_memory.capacity_bytes"@ && reason@ == "must be > 0 (or use \"auto\")"@),
{
    if block_size_bytes == 0 {
        return Err(
            Error::ConfigValidation { field: "kv_memory.block_size_bytes", reason: "must be > 0".to_owned() },
        );
    }
    let pinned_zero = match capacity_bytes {
        CapacitySpec::Bytes(n) => n == 0,
        CapacitySpec::Auto => false,
    };
    if pinned_zero {
        return Err(
            Error::ConfigValidation {
                field: "kv_memory.capacity_bytes",
                reason: "must be > 0 (or use \"auto\")".to_owned(),
            },
        );
    }
    Ok(())
}

/// Disaggregated transport selector.
#[derive(Debug, Clone, Copy, PartialEq, Eq, Structural)]
pub enum DisaggFabric {
    /// No fabric: disabled even if `disagg.enabled = true`.
    NoFabric,
    /// NVIDIA NIXL.
    Nixl,
    /// Mooncake protocol-compatible adapter.
    Mooncake,
}

/// The stable telemetry label of a fabric selector.
pub open spec fn fabric_label(f: DisaggFabric) -> Seq<char> {
    match f {
        DisaggFabric::NoFabric => "none"@,
        DisaggFabric::Nixl => "nixl"@,
        DisaggFabric::Mooncake => "mooncake"@,
    }
}

impl DisaggFabric {
    /// Stable telemetry label.
    pub fn as_label(self) -> (label: &'static str)
        ensures
            label@ == fabric_label(self),
    {
        match self {
            DisaggFabric::NoFabric => "none",
            DisaggFabric::Nixl => "nixl",
            DisaggFabric::Mooncake => "mooncake",
        }
    }
}

/// Disaggregated KV transfer (offload / ingest) settings. Off by default.
#[derive(Debug, Clone, Copy, PartialEq, Eq, Structural)]
pub struct DisaggConfig {
    /// Master switch. When `false` every block stays local.
    pub enabled: bool,
    /// Fabric to route offloads through.
    pub fabric: DisaggFabric,
    /// Minimum number of think-complete blocks to accumulate before flushing
    /// to the fabric.
    pub offload_threshold_blocks: u32,
}

impl Default for DisaggConfig {
    /// Disabled, no fabric, a threshold of four blocks.
    fn default() -> (c: Self)
        ensures
            c == (DisaggConfig { enabled: false, fabric: DisaggFabric::NoFabric, offload_threshold_blocks: 4 }),
    {
        DisaggConfig { enabled: false, fabric: DisaggFabric::NoFabric, offload_threshold_blocks: 4 }
    }
}

impl DisaggConfig {
    /// An enabled section names a fabric, and the offload threshold is at
    /// least one block. The fabric is checked first.
    pub fn validate(self) -> (r: Result<()>)
        ensures
            r is Ok <==> (!(self.enabled && self.fabric is NoFabric) && self.offload_threshold_blocks >= 1),
            self.enabled && self.fabric is NoFabric ==> (r matches Err(Error::ConfigValidation { field, reason })
                && field@ == "disagg.fabric"@
                && reason@ == "must be `nixl` or `mooncake` when disagg.enabled = true"@),
            !(self.enabled && self.fabric is NoFabric) && self.offload_threshold_blocks == 0 ==> (r matches Err(
                Error::ConfigValidation { field, reason },
            ) && field@ == "disagg.offload_threshold_blocks"@
                && reason@ == "must be >= 1 (zero would offload on every demote)"@),
    {
        let no_fabric = match self.fabric {
            DisaggFabric::NoFabric => true,
            _ => false,
        };
        if self.enabled && no_fabric {
            return Err(
                Error::ConfigValidation {
                    field: "disagg.fabric",
                    reason: "must be `nixl` or `mooncake` when disagg.enabled = true".to_owned(),
                },
            );
        }
        if self.offload_threshold_blocks == 0 {
            return Err(
                Error::ConfigValidation {
                    field: "disagg.offload_threshold_blocks",
                    reason: "must be >= 1 (zero would offload on every demote)".to_owned(),
                },
            );
        }
        Ok(())
    }
}

/// Per-model token-boundary configuration, read by the phase router.
#[derive(Debug, Clone)]
pub struct ModelConfig {
    /// Token ids that signal "begin reasoning".
    pub think_start_token_ids: Vec<u32>,
    /// Token ids that signal "end reasoning".
    pub think_end_token_ids: Vec<u32>,
    /// Reasoning-parser key understood by the serving engine.
    pub reasoning_parser: Option<String>,
    /// Whether the model supports disabling its reasoning by prompt control.
    pub supports_think_disable: bool,
}

impl Default for ModelConfig {
    /// No boundary ids, no parser, no think-disable support.
    fn default() -> (c: Self)
        ensures
            c.think_start_token_ids@ == Seq::<u32>::empty(),
            c.think_end_token_ids@ == Seq::<u32>::empty(),
            c.reasoning_parser is None,
            !c.supports_think_disable,
    {
        ModelConfig {
            think_start_token_ids: Vec::new(),
            think_end_token_ids: Vec::new(),
            reasoning_parser: None,
            supports_think_disable: false,
        }
    }
}

} // verus!
