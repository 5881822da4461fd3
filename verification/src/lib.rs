//! Phase-aware inference-time compute scheduling for reasoning models: the
//! per-request phase state machine, the dual-queue dispatcher, the three-tier
//! KV block manager and the disaggregated KV transfer wire format.

pub mod block_manager;
pub mod config;
pub mod error;
pub mod kernels;
pub mod nixl;
pub mod phase_router;
pub mod scheduler;
pub mod speculation;
pub mod text;
pub mod types;

pub use crate::block_manager::{BlockManager, PhaseAwareBlockManager};
pub use crate::config::{CapacitySpec, DisaggConfig, DisaggFabric, ModelConfig};
pub use crate::error::{Error, Result};
pub use crate::phase_router::{EntropyVerdict, PhaseRouter, PhaseRouterConfig};
pub use crate::scheduler::MeridianScheduler;
pub use crate::types::{
    BlockLocation, BlockTier, BudgetForceReason, KvBlock, MlaBlockConfig, PhaseEvent, Priority,
    RequestSlot, ScheduledBatch, ThinkPhase,
};
