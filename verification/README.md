# ternary_constant_cache

Constant cache simulation for ternary GPU kernels: hit-rate tracking, access-pattern
analysis, LRU eviction and cache sizing, verified with Verus.

- `src/state.rs` models the cache: what a state is, which states are valid, and what
  each operation does. `src/cache.rs` holds `ConstantCache`, whose contracts refer to it.
- `src/line.rs`, `src/stats.rs` and `src/pattern.rs` hold cache lines, counters with
  their exact rates, and access patterns.
- `src/estimator.rs` and `src/tracker.rs` hold `CacheSizeEstimator` and `MissTracker`.
- `src/validity.rs`, `src/laws.rs` and `src/trace.rs` prove what holds of every cache:
  the invariants, the effect of single operations, and the laws of whole traces (a
  larger cache never hits less often; a line survives exactly as long as fewer other
  lines are touched than the cache has room for).
- `app/` adds floating-point rates and printable patterns.

Rates are exact fractions. Counters are 64 bits wide; operations ask that they do not
overflow.
