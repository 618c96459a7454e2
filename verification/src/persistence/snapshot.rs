//! The snapshot: a schema-versioned view of the stores that a repository
//! can keep.

use vstd::prelude::*;
use crate::domain::{MapKey, MapKeyView, MapSegmentView};

verus! {

/// Version of the schema that this library writes.
pub const SNAPSHOT_SCHEMA_VERSION: u32 = 1;

/// What the description of a snapshot stands for.
pub ghost struct SnapshotMetaView {
    pub schema_version: u32,
    pub app_version: Option<Seq<char>>,
    pub created_at: Option<u64>,
}

/// What describes a snapshot.
#[derive(Clone, Debug, PartialEq, Eq)]
pub struct SnapshotMeta {
    pub schema_version: u32,
    pub app_version: Option<String>,
    /// When the snapshot was taken, in seconds since the epoch.
    pub created_at: Option<u64>,
}

impl View for SnapshotMeta {
    type V = SnapshotMetaView;

    open spec fn view(&self) -> SnapshotMetaView {
        SnapshotMetaView {
            schema_version: self.schema_version,
            app_version: match self.app_version {
                Some(v) => Some(v@),
                None => None,
            },
            created_at: self.created_at,
        }
    }
}

/// What the record of an executable stands for.
pub ghost struct ExeRecordView {
    pub path: Seq<char>,
    pub total_running_time: u64,
    pub last_seen_time: Option<u64>,
}

/// An executable as a snapshot holds it.
#[derive(Clone, Debug, PartialEq, Eq)]
pub struct ExeRecord {
    pub path: String,
    pub total_running_time: u64,
    pub last_seen_time: Option<u64>,
}

impl View for ExeRecord {
    type V = ExeRecordView;

    open spec fn view(&self) -> ExeRecordView {
        ExeRecordView {
            path: self.path@,
            total_running_time: self.total_running_time,
            last_seen_time: self.last_seen_time,
        }
    }
}

/// A map segment as a snapshot holds it.
#[derive(Clone, Debug, PartialEq, Eq)]
pub struct MapRecord {
    pub path: String,
    pub offset: u64,
    pub length: u64,
    pub update_time: u64,
}

impl View for MapRecord {
    type V = MapSegmentView;

    open spec fn view(&self) -> MapSegmentView {
        MapSegmentView {
            path: self.path@,
            offset: self.offset,
            length: self.length,
            update_time: self.update_time,
        }
    }
}

/// What the record of a pair of the incidence relation stands for.
pub ghost struct ExeMapRecordView {
    pub exe_path: Seq<char>,
    pub map_key: MapKeyView,
    pub prob: u32,
}

/// A pair of the incidence relation as a snapshot holds it.
#[derive(Clone, Debug, PartialEq, Eq)]
pub struct ExeMapRecord {
    pub exe_path: String,
    pub map_key: MapKey,
    /// The encoded probability that the executable uses the map.
    pub prob: u32,
}

impl View for ExeMapRecord {
    type V = ExeMapRecordView;

    open spec fn view(&self) -> ExeMapRecordView {
        ExeMapRecordView { exe_path: self.exe_path@, map_key: self.map_key@, prob: self.prob }
    }
}

/// What the record of a Markov edge stands for.
pub ghost struct MarkovRecordView {
    pub exe_a: Seq<char>,
    pub exe_b: Seq<char>,
    pub time_to_leave: [u32; 4],
    pub transition_prob: [[u32; 4]; 4],
    pub both_running_time: u64,
}

/// A Markov edge as a snapshot holds it: the paths of its two executables
/// and its statistics.
#[derive(Clone, Debug, PartialEq, Eq)]
pub struct MarkovRecord {
    pub exe_a: String,
    pub exe_b: String,
    pub time_to_leave: [u32; 4],
    pub transition_prob: [[u32; 4]; 4],
    pub both_running_time: u64,
}

impl View for MarkovRecord {
    type V = MarkovRecordView;

    open spec fn view(&self) -> MarkovRecordView {
        MarkovRecordView {
            exe_a: self.exe_a@,
            exe_b: self.exe_b@,
            time_to_leave: self.time_to_leave,
            transition_prob: self.transition_prob,
            both_running_time: self.both_running_time,
        }
    }
}

/// What the state of a snapshot stands for.
pub ghost struct StateSnapshotView {
    pub model_time: u64,
    pub last_accounting_time: u64,
    pub exes: Seq<ExeRecordView>,
    pub maps: Seq<MapSegmentView>,
    pub exe_maps: Seq<ExeMapRecordView>,
    pub markov_edges: Seq<MarkovRecordView>,
}

/// The state of the model as a snapshot holds it.
#[derive(Clone, Debug, PartialEq, Eq)]
pub struct StateSnapshot {
    pub model_time: u64,
    pub last_accounting_time: u64,
    pub exes: Vec<ExeRecord>,
    pub maps: Vec<MapRecord>,
    pub exe_maps: Vec<ExeMapRecord>,
    pub markov_edges: Vec<MarkovRecord>,
}

impl View for StateSnapshot {
    type V = StateSnapshotView;

    open spec fn view(&self) -> StateSnapshotView {
        StateSnapshotView {
            model_time: self.model_time,
            last_accounting_time: self.last_accounting_time,
            exes: self.exes@.map_values(|r: ExeRecord| r@),
            maps: self.maps@.map_values(|r: MapRecord| r@),
            exe_maps: self.exe_maps@.map_values(|r: ExeMapRecord| r@),
            markov_edges: self.markov_edges@.map_values(|r: MarkovRecord| r@),
        }
    }
}

impl StateSnapshotView {
    /// The state that holds nothing, at model time zero.
    pub open spec fn empty() -> StateSnapshotView {
        StateSnapshotView {
            model_time: 0,
            last_accounting_time: 0,
            exes: Seq::empty(),
            maps: Seq::empty(),
            exe_maps: Seq::empty(),
            markov_edges: Seq::empty(),
        }
    }
}

/// What a snapshot stands for.
pub ghost struct StoresSnapshotView {
    pub meta: SnapshotMetaView,
    pub state: StateSnapshotView,
}

/// A snapshot of the stores.
#[derive(Clone, Debug, PartialEq, Eq)]
pub struct StoresSnapshot {
    pub meta: SnapshotMeta,
    pub state: StateSnapshot,
}

impl View for StoresSnapshot {
    type V = StoresSnapshotView;

    open spec fn view(&self) -> StoresSnapshotView {
        StoresSnapshotView { meta: self.meta@, state: self.state@ }
    }
}

impl StoresSnapshot {
    /// The snapshot of stores that hold nothing: of the current schema
    /// version, without a version of the program and without a date.
    pub fn empty() -> (r: Self)
        ensures
            r@.state == StateSnapshotView::empty(),
            r@.meta == (SnapshotMetaView {
                schema_version: SNAPSHOT_SCHEMA_VERSION,
                app_version: None,
                created_at: None,
            }),
    {
        let r = StoresSnapshot {
            meta: SnapshotMeta {
                schema_version: SNAPSHOT_SCHEMA_VERSION,
                app_version: None,
                created_at: None,
            },
            state: StateSnapshot {
                model_time: 0,
                last_accounting_time: 0,
                exes: Vec::new(),
                maps: Vec::new(),
                exe_maps: Vec::new(),
                markov_edges: Vec::new(),
            },
        };
        assert(r@.state.exes =~= Seq::empty());
        assert(r@.state.maps =~= Seq::empty());
        assert(r@.state.exe_maps =~= Seq::empty());
        assert(r@.state.markov_edges =~= Seq::empty());
        r
    }
}

} // verus!
