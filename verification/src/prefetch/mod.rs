//! Prefetch planning: which maps to read ahead, and in which order.

pub mod order;
pub mod plan;
pub mod planner;
pub mod prefetcher;

pub use plan::{PrefetchPlan, PrefetchReport};
pub use planner::{FileStat, GreedyPrefetchPlanner, MapSortMeta};
pub use prefetcher::{
    prefetcher_for, ChosenPrefetcher, NoopPrefetcher, PosixFadvisePrefetcher, ReadaheadOutcome,
    ReadaheadRequest,
};
