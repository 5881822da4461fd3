//! Typed error surface of the library.

use vstd::prelude::*;

verus! {

/// Error variants returned by the library.
#[derive(Debug)]
#[non_exhaustive]
pub enum Error {
    /// The configuration text could not be parsed.
    Config(String),
    /// A configuration value is well-formed but semantically invalid.
    ConfigValidation {
        /// Dotted field path inside the config tree.
        field: &'static str,
        /// Human-readable explanation of what is wrong.
        reason: String,
    },
    /// A request identifier was used after its state was reaped.
    UnknownRequest(u64),
    /// A KV block id was used after it was freed.
    UnknownBlock(u32),
    /// Insufficient KV memory to satisfy an allocation, even after running the
    /// eviction policy through every tier.
    KvMemoryExhausted {
        /// Bytes the caller requested.
        needed: u64,
        /// Bytes the eviction policy was able to free.
        freed: u64,
    },
    /// A disaggregated KV transfer (offload / ingest) operation failed.
    Disagg(String),
    /// The active block manager has no disaggregated fabric configured.
    DisaggUnavailable,
    /// A synthetic trace was used where a real measurement is required.
    SyntheticProvenance {
        /// Name of the fixture that produced the synthetic trace.
        fixture: String,
    },
    /// Two acceptance ledgers with different provenance were merged.
    ProvenanceMismatch {
        /// Provenance label of the ledger being merged into.
        left: &'static str,
        /// Provenance label of the ledger being merged from.
        right: &'static str,
    },
    /// Two acceptance ledgers with different straddle policies were merged.
    StraddlePolicyMismatch {
        /// Straddle policy of the ledger being merged into.
        left: &'static str,
        /// Straddle policy of the ledger being merged from.
        right: &'static str,
    },
    /// A phase-segmented statistic was requested for a phase with too few
    /// observations.
    InsufficientObservations {
        /// Which phase arm was short of data.
        phase: &'static str,
    },
    /// A checksum mismatch was detected when ingesting a block from a fabric.
    DisaggChecksum {
        /// 128-bit checksum recorded by the producer (truncated Blake3).
        expected: u128,
        /// 128-bit checksum computed locally on ingest.
        actual: u128,
    },
}

/// Library-wide result alias.
pub type Result<T> = core::result::Result<T, Error>;

/// The fixed leading text of each error's message.
pub open spec fn error_headline(e: Error) -> Seq<char> {
    match e {
        Error::Config(_) => "invalid config"@,
        Error::ConfigValidation { .. } => "config validation failed"@,
        Error::UnknownRequest(_) => "unknown request id"@,
        Error::UnknownBlock(_) => "unknown kv block id"@,
        Error::KvMemoryExhausted { .. } => "kv memory exhausted"@,
        Error::Disagg(_) => "disagg fabric error"@,
        Error::DisaggUnavailable => "no disagg fabric configured"@,
        Error::SyntheticProvenance { .. } => "refusing to treat a synthetic trace as a measurement"@,
        Error::ProvenanceMismatch { .. } => "cannot merge ledgers of differing provenance"@,
        Error::StraddlePolicyMismatch { .. } => "cannot merge ledgers with differing straddle policies"@,
        Error::InsufficientObservations { .. } => "insufficient observations to compute the statistic"@,
        Error::DisaggChecksum { .. } => "block payload checksum mismatch on ingest"@,
    }
}

impl Error {
    /// The fixed leading text of this error's message (the part that does not
    /// depend on the variant's fields).
    pub fn headline(&self) -> (text: &'static str)
        ensures
            text@ == error_headline(*self),
    {
        match self {
            Error::Config(_) => "invalid config",
            Error::ConfigValidation { .. } => "config validation failed",
            Error::UnknownRequest(_) => "unknown request id",
            Error::UnknownBlock(_) => "unknown kv block id",
            Error::KvMemoryExhausted { .. } => "kv memory exhausted",
            Error::Disagg(_) => "disagg fabric error",
            Error::DisaggUnavailable => "no disagg fabric configured",
            Error::SyntheticProvenance { .. } => "refusing to treat a synthetic trace as a measurement",
            Error::ProvenanceMismatch { .. } => "cannot merge ledgers of differing provenance",
            Error::StraddlePolicyMismatch { .. } => "cannot merge ledgers with differing straddle policies",
            Error::InsufficientObservations { .. } => "insufficient observations to compute the statistic",
            Error::DisaggChecksum { .. } => "block payload checksum mismatch on ingest",
        }
    }
}

} // verus!
