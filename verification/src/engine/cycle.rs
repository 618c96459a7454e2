//! The engine: it owns the stores and takes the decisions of the cycle.
//!
//! A tick is a sequence of steps. Between the steps the program that runs
//! the engine does what this library cannot do: it scans the processes,
//! evaluates the floating-point side of the model, and issues the
//! readahead hints.

use vstd::prelude::*;
use crate::config::{Config, ConfigView, PersistenceView};
use crate::domain::{capped_sum, MapId, MemStat};
use crate::error::Error;
use crate::observation::{
    events_view, extract_memstat, first_memstat, AdmissionPolicy, ModelDelta, ObservationEvent,
};
use crate::engine::reconstitute::{rejection, restored, snapshot_from_stores, state_of,
    stores_from_snapshot};
use crate::persistence::snapshot::{SnapshotMetaView, StoresSnapshot, SNAPSHOT_SCHEMA_VERSION};
use crate::prediction::{Prediction, PredictionSummary};
use crate::prefetch::plan::{PrefetchPlan, PrefetchReport};
use crate::prefetch::planner::{
    available, capped, footprint, kilobytes, total_length, FileStat, GreedyPrefetchPlanner,
};
use crate::stores::edge_key::EdgeKey;
use crate::stores::state::{extends, Stores, StoresView};
use crate::updater::{linked, observed, pending_all, updated, EdgeTransition, ModelUpdater};

verus! {

/// Nanoseconds in a second.
pub const NANOS_PER_SEC: u128 = 1_000_000_000;

/// What the first step of a tick asks of the scanner.
#[derive(Clone, Copy, Debug, PartialEq, Eq, Structural)]
pub struct ScanRequest {
    /// Whether to scan at all. Where not, the observation of the tick is
    /// the stream that is opened and closed at once.
    pub scan: bool,
    /// The model time of the scan.
    pub now: u64,
    /// The number of the scan.
    pub scan_id: u64,
}

/// What the second step of a tick found.
#[derive(Clone, Debug)]
pub struct Observed {
    /// The memory figures of the scan, if it reported any.
    pub memstat: Option<MemStat>,
    /// What the updater added to the stores and dropped from them.
    pub delta: ModelDelta,
    /// The edges that changed their state.
    pub transitions: Vec<EdgeTransition>,
}

/// The report of a tick.
#[derive(Clone, Debug)]
pub struct TickReport {
    pub scan_id: u64,
    pub model_delta: ModelDelta,
    pub prediction: PredictionSummary,
    pub prefetch: PrefetchReport,
    pub memstat: Option<MemStat>,
}

/// New options and the collaborators built for them.
#[derive(Debug)]
pub struct ReloadBundle<A: AdmissionPolicy> {
    pub config: Config,
    pub admission: A,
    pub updater: ModelUpdater,
    pub planner: GreedyPrefetchPlanner,
}

/// The engine: the options, the stores, the number of the last scan and
/// the collaborators that work on the stores.
#[derive(Debug)]
pub struct PreloadEngine<A: AdmissionPolicy> {
    config: Config,
    stores: Stores,
    scan_id: u64,
    admission: A,
    updater: ModelUpdater,
    planner: GreedyPrefetchPlanner,
}

/// Whether the state is due for saving: autosave is on, and at least the
/// interval has passed since the last save.
pub open spec fn spec_autosave_due(autosave_secs: u64, since_last_save_secs: u64) -> bool {
    autosave_secs > 0 && since_last_save_secs >= autosave_secs
}

/// Whether the state is due for saving, `since_last_save_secs` whole
/// seconds after it was last saved.
pub fn autosave_due(autosave_secs: u64, since_last_save_secs: u64) -> (r: bool)
    ensures
        r == spec_autosave_due(autosave_secs, since_last_save_secs),
{
    autosave_secs > 0 && since_last_save_secs >= autosave_secs
}

/// The nanoseconds to sleep after a tick that took `elapsed_nanos`, so
/// that the next tick starts a cycle after this one started: what is
/// left of the cycle, and nothing where the tick took the cycle or longer.
pub open spec fn spec_sleep_after_tick(cycle_secs: u64, elapsed_nanos: u128) -> Option<u128> {
    if elapsed_nanos < cycle_secs * NANOS_PER_SEC {
        Some((cycle_secs * NANOS_PER_SEC - elapsed_nanos) as u128)
    } else {
        None
    }
}

/// The nanoseconds to sleep after a tick that took `elapsed_nanos`.
pub fn sleep_after_tick(cycle_secs: u64, elapsed_nanos: u128) -> (r: Option<u128>)
    ensures
        r == spec_sleep_after_tick(cycle_secs, elapsed_nanos),
{
    assert(cycle_secs * NANOS_PER_SEC <= 0xFFFF_FFFF_FFFF_FFFF * NANOS_PER_SEC) by (nonlinear_arith)
        requires
            cycle_secs <= 0xFFFF_FFFF_FFFF_FFFF,
    ;
    let cycle: u128 = (cycle_secs as u128) * NANOS_PER_SEC;
    if elapsed_nanos < cycle {
        Some(cycle - elapsed_nanos)
    } else {
        None
    }
}

impl<A: AdmissionPolicy> PreloadEngine<A> {
    /// The options in force.
    pub closed spec fn spec_config(&self) -> ConfigView {
        self.config@
    }

    /// What the stores stand for.
    pub closed spec fn spec_stores(&self) -> StoresView {
        self.stores@
    }

    /// The number of the last scan.
    pub closed spec fn spec_scan_id(&self) -> u64 {
        self.scan_id
    }

    /// The admission policy in force.
    pub closed spec fn spec_admission(&self) -> A {
        self.admission
    }

    /// The updater in force.
    pub closed spec fn spec_updater(&self) -> ModelUpdater {
        self.updater
    }

    /// The planner in force.
    pub closed spec fn spec_planner(&self) -> GreedyPrefetchPlanner {
        self.planner
    }

    /// The stores and the planner are well formed.
    pub closed spec fn wf(&self) -> bool {
        self.stores.wf() && self.planner.wf()
    }

    /// Well-formed engines hold valid stores.
    pub proof fn lemma_valid(&self)
        requires
            self.wf(),
        ensures
            self.spec_stores().valid(),
    {
        self.stores.lemma_valid();
    }

    /// The engine with empty stores. Nothing is read from persistence.
    pub fn new(
        config: Config,
        admission: A,
        updater: ModelUpdater,
        planner: GreedyPrefetchPlanner,
    ) -> (r: Self)
        requires
            planner.wf(),
        ensures
            r.wf(),
            r.spec_config() == config@,
            r.spec_stores() == StoresView::empty(),
            r.spec_scan_id() == 0,
            r.spec_admission() == admission,
            r.spec_updater() == updater,
            r.spec_planner() == planner,
    {
        PreloadEngine { config, stores: Stores::new(), scan_id: 0, admission, updater, planner }
    }

    /// The engine with the stores that `snapshot` stands for, or why the
    /// snapshot is rejected. The active set is rebuilt for the active
    /// window of `config`.
    pub fn load(
        config: Config,
        admission: A,
        updater: ModelUpdater,
        planner: GreedyPrefetchPlanner,
        snapshot: StoresSnapshot,
    ) -> (r: Result<Self, Error>)
        requires
            planner.wf(),
        ensures
            match r {
                Ok(engine) => {
                    &&& rejection(snapshot@.state, config.model.active_window) is None
                    &&& engine.wf()
                    &&& engine.spec_config() == config@
                    &&& engine.spec_stores() == restored(
                        snapshot@.state,
                        config.model.active_window,
                    )
                    &&& engine.spec_scan_id() == 0
                    &&& engine.spec_admission() == admission
                    &&& engine.spec_updater() == updater
                    &&& engine.spec_planner() == planner
                },
                Err(e) => rejection(snapshot@.state, config.model.active_window) == Some(e@),
            },
    {
        match stores_from_snapshot(snapshot, config.model.active_window) {
            Ok(stores) => Ok(
                PreloadEngine { config, stores, scan_id: 0, admission, updater, planner },
            ),
            Err(e) => Err(e),
        }
    }

    /// The stores, for reading.
    pub fn stores(&self) -> (r: &Stores)
        ensures
            r@ == self.spec_stores(),
            self.wf() ==> r.wf(),
    {
        &self.stores
    }

    /// The options in force.
    pub fn config(&self) -> (r: &Config)
        ensures
            r@ == self.spec_config(),
    {
        &self.config
    }

    /// The number of the last scan.
    pub fn scan_id(&self) -> (r: u64)
        ensures
            r == self.spec_scan_id(),
    {
        self.scan_id
    }

    /// First step of a tick: the scan gets the next number, which stops at
    /// the largest value, and the model time of the stores. Whether to scan
    /// is up to the options.
    pub fn begin_tick(&mut self) -> (r: ScanRequest)
        requires
            old(self).wf(),
        ensures
            final(self).wf(),
            final(self).spec_scan_id() == capped_sum(old(self).spec_scan_id(), 1),
            final(self).spec_stores() == old(self).spec_stores(),
            final(self).spec_config() == old(self).spec_config(),
            final(self).spec_admission() == old(self).spec_admission(),
            final(self).spec_updater() == old(self).spec_updater(),
            final(self).spec_planner() == old(self).spec_planner(),
            r == (ScanRequest {
                scan: old(self).spec_config().system.doscan,
                now: old(self).spec_stores().model_time,
                scan_id: final(self).spec_scan_id(),
            }),
    {
        self.scan_id = self.scan_id.saturating_add(1);
        ScanRequest {
            scan: self.config.system.doscan,
            now: self.stores.model_time(),
            scan_id: self.scan_id,
        }
    }

    /// The stores after the second step of a tick.
    pub open spec fn spec_observed(&self, events: Seq<crate::observation::EventView>) -> StoresView {
        if self.spec_config().system.doscan {
            updated(
                self.spec_stores(),
                events,
                self.spec_admission(),
                self.spec_updater().active_window,
            )
        } else {
            self.spec_stores()
        }
    }

    /// Second step of a tick: the memory figures are taken from the
    /// observation, and where the options ask for scanning the updater
    /// folds the observation into the stores. Where they do not, the stores
    /// stay as they are and nothing is reported as changed.
    pub fn observe(&mut self, observation: &Vec<ObservationEvent>) -> (r: Observed)
        requires
            old(self).wf(),
        ensures
            final(self).wf(),
            final(self).spec_stores() == old(self).spec_observed(events_view(observation@)),
            final(self).spec_scan_id() == old(self).spec_scan_id(),
            final(self).spec_config() == old(self).spec_config(),
            final(self).spec_admission() == old(self).spec_admission(),
            final(self).spec_updater() == old(self).spec_updater(),
            final(self).spec_planner() == old(self).spec_planner(),
            r.memstat == first_memstat(events_view(observation@)),
            !old(self).spec_config().system.doscan ==> r.delta == (ModelDelta {
                new_exes: 0,
                new_maps: 0,
                new_edges: 0,
                pruned_edges: 0,
            }) && r.transitions@.len() == 0,
            old(self).spec_config().system.doscan ==> {
                &&& r.delta.new_exes == final(self).spec_stores().exes.len() - old(self).spec_stores().exes.len()
                &&& r.delta.new_maps == final(self).spec_stores().maps.len() - old(self).spec_stores().maps.len()
                &&& r.delta.new_edges == final(self).spec_stores().markov.len() - observed(
                    old(self).spec_stores(),
                    events_view(observation@),
                    old(self).spec_admission(),
                    old(self).spec_updater().active_window,
                ).markov.len()
                &&& r.delta.pruned_edges == old(self).spec_stores().markov.len() - observed(
                    old(self).spec_stores(),
                    events_view(observation@),
                    old(self).spec_admission(),
                    old(self).spec_updater().active_window,
                ).markov.len()
                &&& r.transitions@ == pending_all(
                    linked(
                        old(self).spec_stores(),
                        events_view(observation@),
                        old(self).spec_admission(),
                        old(self).spec_updater().active_window,
                    ),
                    linked(
                        old(self).spec_stores(),
                        events_view(observation@),
                        old(self).spec_admission(),
                        old(self).spec_updater().active_window,
                    ).markov.len(),
                )
                &&& final(self).spec_stores().edges_active()
            },
            extends(old(self).spec_stores(), final(self).spec_stores()),
            old(self).spec_stores().times_consistent() ==> final(self).spec_stores().times_consistent(),
    {
        let memstat = extract_memstat(observation);
        if self.config.system.doscan {
            let update = self.updater.apply(&mut self.stores, observation, &self.admission);
            Observed { memstat, delta: update.delta, transitions: update.transitions }
        } else {
            proof {
                self.stores.lemma_valid();
            }
            Observed { memstat, delta: ModelDelta::default(), transitions: Vec::new() }
        }
    }

    /// Gives the edge of the pair `key` the encoded statistics
    /// `time_to_leave` and `transition_prob`, and says whether the pair has
    /// an edge.
    pub fn set_edge_statistics(
        &mut self,
        key: EdgeKey,
        time_to_leave: [u32; 4],
        transition_prob: [[u32; 4]; 4],
    ) -> (r: bool)
        requires
            old(self).wf(),
        ensures
            final(self).wf(),
            final(self).spec_stores() == old(self).spec_stores().set_edge_statistics(
                key,
                time_to_leave,
                transition_prob,
            ),
            final(self).spec_scan_id() == old(self).spec_scan_id(),
            final(self).spec_config() == old(self).spec_config(),
            final(self).spec_admission() == old(self).spec_admission(),
            final(self).spec_updater() == old(self).spec_updater(),
            final(self).spec_planner() == old(self).spec_planner(),
            r == crate::stores::assoc::has_key(old(self).spec_stores().markov, key),
    {
        self.stores.set_edge_statistics(key, time_to_leave, transition_prob)
    }

    /// Whether a tick predicts, plans and prefetches.
    pub fn predicts(&self) -> (r: bool)
        ensures
            r == self.spec_config().system.dopredict,
    {
        self.config.system.dopredict
    }

    /// The maps of whose files the planner needs to know where they lie
    /// on disk before it plans for `prediction`.
    pub fn unresolved_files(&self, prediction: &Prediction, memstat: &MemStat) -> (r: Vec<MapId>)
        requires
            self.wf(),
            prediction.wf(),
        ensures
            r@ == (if self.spec_planner().strategy() == crate::config::SortStrategy::Block
                || self.spec_planner().strategy() == crate::config::SortStrategy::Inode {
                crate::prefetch::planner::ids_of(
                    self.spec_planner().selection(
                        prediction.map_scores@,
                        self.spec_stores().maps,
                        *memstat,
                    ),
                ).filter(|id: MapId| !self.spec_planner().cache().contains_key(id))
            } else {
                Seq::<MapId>::empty()
            }),
    {
        self.planner.unresolved(prediction, &self.stores, memstat)
    }

    /// Lets the planner remember what a lookup of the file of the map
    /// `map_id` gave.
    pub fn remember_file(&mut self, map_id: MapId, stat: Option<FileStat>)
        requires
            old(self).wf(),
        ensures
            final(self).wf(),
            final(self).spec_stores() == old(self).spec_stores(),
            final(self).spec_scan_id() == old(self).spec_scan_id(),
            final(self).spec_config() == old(self).spec_config(),
            final(self).spec_admission() == old(self).spec_admission(),
            final(self).spec_updater() == old(self).spec_updater(),
            final(self).spec_planner().strategy() == old(self).spec_planner().strategy(),
            final(self).spec_planner().policy() == old(self).spec_planner().policy(),
            final(self).spec_planner().cache() == (if !old(self).spec_planner().cache().contains_key(map_id) && old(self).spec_stores().has_map(
                map_id,
            ) {
                old(self).spec_planner().cache().insert(
                    map_id,
                    match stat {
                        Some(s) => Some(
                            crate::prefetch::planner::meta_of(
                                old(self).spec_stores().maps[map_id.0 as int].offset,
                                s,
                            ),
                        ),
                        None => None,
                    },
                )
            } else {
                old(self).spec_planner().cache()
            }),
    {
        self.planner.remember(&self.stores, map_id, stat);
    }

    /// Third step of a tick: the plan. Where the options ask for
    /// prediction and the scan reported memory figures, the planner plans
    /// for `prediction`; otherwise the plan is empty.
    pub fn plan(&self, prediction: &Prediction, memstat: Option<MemStat>) -> (r: PrefetchPlan)
        requires
            self.wf(),
            prediction.wf(),
        ensures
            r.maps@.no_duplicates(),
            forall|id: MapId|
                r.maps@.contains(id) ==> self.spec_stores().has_map(id) && exists|k: int|
                    0 <= k < prediction.map_scores@.len() && prediction.map_scores@[k].map == id,
            match memstat {
                Some(mem) if self.spec_config().system.dopredict => {
                    &&& r.maps@ == self.spec_planner().planned(
                        prediction.map_scores@,
                        self.spec_stores().maps,
                        mem,
                    )
                    &&& r.total_bytes == total_length(
                        self.spec_planner().selection(
                            prediction.map_scores@,
                            self.spec_stores().maps,
                            mem,
                        ),
                        self.spec_stores().maps,
                    )
                    &&& r.budget_bytes == capped(
                        capped(available(self.spec_planner().policy(), mem)) * 1024,
                    )
                    &&& footprint(
                        self.spec_planner().selection(
                            prediction.map_scores@,
                            self.spec_stores().maps,
                            mem,
                        ),
                        self.spec_stores().maps,
                    ) <= capped(available(self.spec_planner().policy(), mem))
                    &&& kilobytes(r.maps@, self.spec_stores().maps) <= capped(
                        available(self.spec_planner().policy(), mem),
                    )
                },
                _ => r.maps@.len() == 0 && r.total_bytes == 0 && r.budget_bytes == 0,
            },
    {
        if !self.config.system.dopredict {
            return PrefetchPlan::empty();
        }
        match memstat {
            Some(mem) => self.planner.plan(prediction, &self.stores, &mem),
            None => PrefetchPlan::empty(),
        }
    }

    /// Last step of a tick: the model time advances by one cycle and stops
    /// at the largest value; the report of the tick is put together.
    pub fn finish_tick(
        &mut self,
        observed: Observed,
        prediction: PredictionSummary,
        prefetch: PrefetchReport,
    ) -> (r: TickReport)
        requires
            old(self).wf(),
        ensures
            final(self).wf(),
            final(self).spec_stores() == (StoresView {
                model_time: capped_sum(
                    old(self).spec_stores().model_time,
                    old(self).spec_config().model.cycle,
                ),
                ..old(self).spec_stores()
            }),
            final(self).spec_scan_id() == old(self).spec_scan_id(),
            final(self).spec_config() == old(self).spec_config(),
            final(self).spec_admission() == old(self).spec_admission(),
            final(self).spec_updater() == old(self).spec_updater(),
            final(self).spec_planner() == old(self).spec_planner(),
            r.scan_id == old(self).spec_scan_id(),
            r.model_delta == observed.delta,
            r.prediction == prediction,
            r.prefetch == prefetch,
            r.memstat == observed.memstat,
            old(self).spec_stores().times_consistent() ==> final(self).spec_stores().times_consistent(),
            old(self).spec_stores().edges_active() ==> final(self).spec_stores().edges_active(),
    {
        let next = self.stores.model_time().saturating_add(self.config.model.cycle);
        self.stores.set_model_time(next);
        TickReport {
            scan_id: self.scan_id,
            model_delta: observed.delta,
            prediction,
            prefetch,
            memstat: observed.memstat,
        }
    }

    /// The snapshot of the stores, for saving, taken at `created_at`
    /// seconds since the epoch.
    pub fn save(&self, created_at: Option<u64>) -> (r: StoresSnapshot)
        requires
            self.wf(),
        ensures
            r@.state == state_of(self.spec_stores()),
            r@.meta == (SnapshotMetaView {
                schema_version: SNAPSHOT_SCHEMA_VERSION,
                app_version: None,
                created_at,
            }),
    {
        snapshot_from_stores(&self.stores, created_at)
    }

    /// Whether the state is saved when the engine is cancelled.
    pub fn saves_on_shutdown(&self) -> (r: bool)
        ensures
            r == self.spec_config().persistence.save_on_shutdown,
    {
        self.config.persistence.save_on_shutdown
    }

    /// Whether the state is due for saving, `since_last_save_secs` whole
    /// seconds after it was last saved.
    pub fn autosave_due(&self, since_last_save_secs: u64) -> (r: bool)
        ensures
            r == spec_autosave_due(
                Config::spec_autosave_secs(self.spec_config()),
                since_last_save_secs,
            ),
    {
        autosave_due(self.config.autosave_secs(), since_last_save_secs)
    }

    /// The nanoseconds to sleep after a tick that took `elapsed_nanos`.
    pub fn sleep_after_tick(&self, elapsed_nanos: u128) -> (r: Option<u128>)
        ensures
            r == spec_sleep_after_tick(self.spec_config().model.cycle, elapsed_nanos),
    {
        sleep_after_tick(self.config.model.cycle, elapsed_nanos)
    }

    /// The options that a reload to `requested` puts in force while
    /// `current` are in force: those requested, but for the path of the
    /// state, which stays as it is.
    pub open spec fn reloaded_config(current: ConfigView, requested: ConfigView) -> ConfigView {
        ConfigView {
            persistence: PersistenceView {
                state_path: current.persistence.state_path,
                ..requested.persistence
            },
            ..requested
        }
    }

    /// Puts the options and the collaborators of `bundle` in force. The
    /// path of the state is never changed under a running engine: where the
    /// bundle asks for another one, the request is refused and the path
    /// stays as it is. Returns whether such a request was refused. The
    /// stores and the number of the last scan stay as they are.
    pub fn apply_reload(&mut self, bundle: ReloadBundle<A>) -> (refused: bool)
        requires
            old(self).wf(),
            bundle.planner.wf(),
        ensures
            final(self).wf(),
            refused == (bundle.config@.persistence.state_path != old(self).spec_config().persistence.state_path),
            final(self).spec_config() == Self::reloaded_config(
                old(self).spec_config(),
                bundle.config@,
            ),
            final(self).spec_admission() == bundle.admission,
            final(self).spec_updater() == bundle.updater,
            final(self).spec_planner() == bundle.planner,
            final(self).spec_stores() == old(self).spec_stores(),
            final(self).spec_scan_id() == old(self).spec_scan_id(),
    {
        let mut bundle = bundle;
        let same = match (&bundle.config.persistence.state_path, &self.config.persistence.state_path) {
            (Some(requested), Some(current)) => *requested == *current,
            (None, None) => true,
            _ => false,
        };
        if !same {
            bundle.config.persistence.state_path = match &self.config.persistence.state_path {
                Some(current) => Some(current.clone()),
                None => None,
            };
        }
        self.config = bundle.config;
        self.admission = bundle.admission;
        self.updater = bundle.updater;
        self.planner = bundle.planner;
        !same
    }
}

} // verus!
