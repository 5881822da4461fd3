# meridian

Phase-aware inference-time compute scheduling for reasoning models, as a
Verus-verified library.

- `src/` — the verified library.
  - `phase_router` — the per-request token-stream state machine
    (`Prefill → ThinkDecode → OutputDecode → Complete`), budget forcing, the
    exact request count and the idle reaper, over a `DashMap` of entries.
  - `scheduler` — the dual-queue dispatcher: output first, think slots fill
    the rest of the block budget; pending `</think>` injections in order.
  - `block_manager` — the three-tier KV block manager: tier-then-LRU
    eviction, one-way demotion, exact byte accounting.
  - `nixl` — the disaggregated KV transfer wire format (32-byte header,
    BLAKE3-128 checksum), a synthetic fabric, and a fabric-backed manager.
  - `speculation` — the speculation vocabulary, the draft hook's decision
    (the basis of a proposal and the shrink-only clamp without a
    measurement), and the acceptance ledger's integer decisions: where a
    step is recorded, the order in which a merge is refused, the order of
    the checks before a measured result, and the verdict.
  - `config`, `kernels`, `types`, `error`, `text` — the integer parts of the
    configuration, the kernel error surface, shared types, the error type,
    and decimal rendering for error messages.
- `tests/` — scenario tests run against the compiled library.
- `app/` — the service layer: TOML configuration with serde, error display
  messages, the lock-protected router and scheduler with the floating-point
  entropy averages and think-budget multiplier, the draft hook's
  floating-point bounds and throughput model, the block manager with its
  metrics and the warning when eviction reaches output-critical blocks, and
  the kernel launchers.

## What is not here

The floating-point analysis around speculative decoding — the acceptance
ledger's running moments and its phase-gap report, the Welch statistics,
the measurement-provenance record and the remaining confidence-model
bounds — is not part of this crate; the draft hook and the ledger's
integer decisions are.

## The block pool

Blocks live in an arena indexed by block id, with a LIFO free list. The
eviction victim is found by a scan of the arena, linear in the number of
slots per victim, rather than from per-tier ordered sets with logarithmic
access: vstd gives the order of a `BTreeSet`'s keys only under an
`obeys_cmp` premise on the key type, while the scan lets the eviction order
(tier, then access stamp, then id) be proved directly from the blocks.
