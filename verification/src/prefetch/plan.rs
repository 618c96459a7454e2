//! The plan of one cycle and the report of its execution.

use vstd::prelude::*;
use crate::domain::{MapId, MapKey};

verus! {

/// The maps to read ahead, in the order in which to issue them.
#[derive(Clone, Debug)]
pub struct PrefetchPlan {
    pub maps: Vec<MapId>,
    /// Bytes of all the maps of the plan.
    pub total_bytes: u64,
    /// Bytes that the memory policy allowed.
    pub budget_bytes: u64,
}

impl PrefetchPlan {
    /// The plan that reads nothing ahead.
    pub fn empty() -> (r: Self)
        ensures
            r.maps@.len() == 0,
            r.total_bytes == 0,
            r.budget_bytes == 0,
    {
        PrefetchPlan { maps: Vec::new(), total_bytes: 0, budget_bytes: 0 }
    }
}

/// What became of a plan.
#[derive(Clone, Debug)]
pub struct PrefetchReport {
    /// Number of maps for which the readahead hint was given.
    pub num_maps: usize,
    /// Bytes of all the maps of the plan.
    pub total_bytes: u64,
    /// The maps for which the hint failed.
    pub failures: Vec<MapKey>,
}

impl PrefetchReport {
    /// The report of a cycle in which nothing was prefetched.
    pub fn new() -> (r: Self)
        ensures
            r.num_maps == 0,
            r.total_bytes == 0,
            r.failures@.len() == 0,
    {
        PrefetchReport { num_maps: 0, total_bytes: 0, failures: Vec::new() }
    }
}

impl Default for PrefetchReport {
    fn default() -> (r: Self)
        ensures
            r.num_maps == 0,
            r.total_bytes == 0,
            r.failures@.len() == 0,
    {
        PrefetchReport::new()
    }
}

} // verus!
