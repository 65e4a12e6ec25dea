//! Constant cache simulation for ternary GPU kernels.
//!
//! Models a fixed-size, fully associative, read-only cache with LRU eviction:
//! hit and miss accounting, access-pattern classification, and cache sizing.
//! Every executable function carries a contract over a mathematical model of
//! the cache, and the laws of the model are proved beside it.

pub mod answers;
pub mod cache;
pub mod count;
pub mod effects;
pub mod estimator;
pub mod laws;
pub mod line;
pub mod order;
pub mod pattern;
pub mod reuse;
pub mod sizing;
pub mod state;
pub mod stats;
pub mod strides;
pub mod tags;
pub mod trace;
pub mod tracker;
pub mod validity;
pub mod window;

pub use cache::ConstantCache;
pub use estimator::CacheSizeEstimator;
pub use line::{CacheLine, CacheLineId, CACHE_LINE_SIZE, TRITS_PER_LINE};
pub use pattern::AccessPattern;
pub use stats::{CacheStats, Rate};
pub use tracker::{MissTracker, MissType};
