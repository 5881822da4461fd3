//! The integer checks of the configuration, the disaggregation section, the
//! kernel surface, the error headlines and the shared labels.

use meridian::config::{
    check_kv_sizes, check_think_budget, CapacitySpec, DisaggConfig, DisaggFabric, ModelConfig,
};
use meridian::error::Error;
use meridian::kernels::{launch_outcome, Dtype, KernelError};
use meridian::types::{BlockLocation, BudgetForceReason, MlaBlockConfig, ScheduledBatch};

#[test]
fn rejects_min_above_max_think_tokens() {
    let err = check_think_budget(500, 100).expect_err("must reject");
    match err {
        Error::ConfigValidation { field, reason } => {
            assert!(field.contains("min_think_tokens"), "unexpected field: {field}");
            assert_eq!(reason, "must be < scheduler.max_think_tokens");
        }
        other => panic!("expected ConfigValidation, got {other:?}"),
    }
    assert!(check_think_budget(100, 100).is_err());
    assert!(check_think_budget(512, 32_768).is_ok());
}

#[test]
fn kv_sizes_are_checked_in_order() {
    assert!(check_kv_sizes(16_384, CapacitySpec::Auto).is_ok());
    assert!(check_kv_sizes(16, CapacitySpec::Bytes(1)).is_ok());
    match check_kv_sizes(0, CapacitySpec::Bytes(0)) {
        Err(Error::ConfigValidation { field, .. }) => assert_eq!(field, "kv_memory.block_size_bytes"),
        other => panic!("expected block size error, got {other:?}"),
    }
    match check_kv_sizes(16, CapacitySpec::Bytes(0)) {
        Err(Error::ConfigValidation { field, reason }) => {
            assert_eq!(field, "kv_memory.capacity_bytes");
            assert_eq!(reason, "must be > 0 (or use \"auto\")");
        }
        other => panic!("expected capacity error, got {other:?}"),
    }
}

#[test]
fn capacity_resolves_auto_to_the_default() {
    assert_eq!(CapacitySpec::Bytes(1024).resolve(7), 1024);
    assert_eq!(CapacitySpec::Auto.resolve(7), 7);
}

#[test]
fn disagg_defaults_and_validation() {
    let d = DisaggConfig::default();
    assert!(!d.enabled);
    assert_eq!(d.fabric, DisaggFabric::NoFabric);
    assert_eq!(d.offload_threshold_blocks, 4);
    assert!(d.validate().is_ok());

    let enabled_without_fabric = DisaggConfig { enabled: true, ..d };
    match enabled_without_fabric.validate() {
        Err(Error::ConfigValidation { field, .. }) => assert_eq!(field, "disagg.fabric"),
        other => panic!("expected fabric error, got {other:?}"),
    }
    let zero_threshold = DisaggConfig { offload_threshold_blocks: 0, ..d };
    match zero_threshold.validate() {
        Err(Error::ConfigValidation { field, .. }) => {
            assert_eq!(field, "disagg.offload_threshold_blocks")
        }
        other => panic!("expected threshold error, got {other:?}"),
    }
    let nixl = DisaggConfig { enabled: true, fabric: DisaggFabric::Nixl, offload_threshold_blocks: 1 };
    assert!(nixl.validate().is_ok());
    assert_eq!(DisaggFabric::NoFabric.as_label(), "none");
    assert_eq!(DisaggFabric::Nixl.as_label(), "nixl");
    assert_eq!(DisaggFabric::Mooncake.as_label(), "mooncake");
}

#[test]
fn model_config_defaults_are_empty() {
    let m = ModelConfig::default();
    assert!(m.think_start_token_ids.is_empty());
    assert!(m.think_end_token_ids.is_empty());
    assert!(m.reasoning_parser.is_none());
    assert!(!m.supports_think_disable);
}

#[test]
fn launch_codes_map_to_outcomes() {
    assert!(launch_outcome(0).is_ok());
    assert_eq!(launch_outcome(-1), Err(KernelError::Unavailable));
    assert_eq!(launch_outcome(700), Err(KernelError::Launch(700)));
    assert_eq!(Dtype::F32.code(), 0);
    assert_eq!(Dtype::Bf16.code(), 1);
    assert_eq!(Dtype::F16.code(), 2);
}

#[test]
fn error_headlines() {
    assert_eq!(Error::DisaggUnavailable.headline(), "no disagg fabric configured");
    assert_eq!(
        Error::KvMemoryExhausted { needed: 1, freed: 0 }.headline(),
        "kv memory exhausted"
    );
    assert_eq!(Error::UnknownRequest(3).headline(), "unknown request id");
}

#[test]
fn shared_labels_and_sizes() {
    assert_eq!(BudgetForceReason::Converged.as_label(), "converged");
    assert_eq!(BudgetForceReason::Overthinking.as_label(), "overthinking");
    assert_eq!(BudgetForceReason::HardCap.as_label(), "hard_cap");
    assert_eq!(BlockLocation::Local.kind_label(), "local");
    assert_eq!(BlockLocation::Remote { fabric: "nixl" }.kind_label(), "remote");
    let mla = MlaBlockConfig { latent_dim: 0, bytes_per_element: 2, tokens_per_block: 16 };
    assert_eq!(mla.block_size_bytes(), 0);
    let empty = ScheduledBatch { output_slots: Vec::new(), think_slots: Vec::new() };
    assert!(empty.is_empty());
    assert_eq!(empty.len(), 0);
}
