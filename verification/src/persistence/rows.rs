//! The rows of the relational schema, and the way between a snapshot and
//! its rows. The store keeps signed 64-bit integers: an unsigned value is
//! stored as the signed value with the same bits.

use vstd::prelude::*;
use crate::domain::{MapKey, MapKeyView, MapSegmentView};
use crate::persistence::snapshot::{
    ExeMapRecord, ExeMapRecordView, ExeRecord, ExeRecordView, MapRecord, MarkovRecord,
    MarkovRecordView, SnapshotMeta, SnapshotMetaView, StateSnapshot, StateSnapshotView,
    StoresSnapshot, StoresSnapshotView, SNAPSHOT_SCHEMA_VERSION,
};

verus! {

/// The signed value with the bits of `v`.
pub fn stored(v: u64) -> (r: i64)
    ensures
        r == v as i64,
{
    v as i64
}

/// The unsigned value with the bits of `v`.
pub fn loaded(v: i64) -> (r: u64)
    ensures
        r == v as u64,
{
    v as u64
}

/// Storing and loading gives a value back as it was.
pub proof fn lemma_stored_loaded(v: u64)
    ensures
        ((v as i64) as u64) == v,
{
    assert(((v as i64) as u64) == v) by (bit_vector);
}

/// Storing and loading gives a schema version back as it was.
pub proof fn lemma_version_kept(v: u32)
    ensures
        ((v as i64) as u32) == v,
{
    assert(((v as i64) as u32) == v) by (bit_vector);
}

/// What the single row of the table `state` stands for.
pub ghost struct StateRowView {
    pub schema_version: i64,
    pub app_version: Option<Seq<char>>,
    pub created_at: Option<u64>,
    pub model_time: i64,
    pub last_accounting_time: i64,
}

/// The single row of the table `state`.
#[derive(Clone, Debug, PartialEq, Eq)]
pub struct StateRow {
    pub schema_version: i64,
    pub app_version: Option<String>,
    /// Seconds since the epoch, which the column holds as decimal text.
    pub created_at: Option<u64>,
    pub model_time: i64,
    pub last_accounting_time: i64,
}

impl View for StateRow {
    type V = StateRowView;

    open spec fn view(&self) -> StateRowView {
        StateRowView {
            schema_version: self.schema_version,
            app_version: match self.app_version {
                Some(v) => Some(v@),
                None => None,
            },
            created_at: self.created_at,
            model_time: self.model_time,
            last_accounting_time: self.last_accounting_time,
        }
    }
}

/// What a row of the table `exes` stands for.
pub ghost struct ExeRowView {
    pub path: Seq<char>,
    pub total_running_time: i64,
    pub last_seen_time: Option<i64>,
}

/// A row of the table `exes`.
#[derive(Clone, Debug, PartialEq, Eq)]
pub struct ExeRow {
    pub path: String,
    pub total_running_time: i64,
    pub last_seen_time: Option<i64>,
}

impl View for ExeRow {
    type V = ExeRowView;

    open spec fn view(&self) -> ExeRowView {
        ExeRowView {
            path: self.path@,
            total_running_time: self.total_running_time,
            last_seen_time: self.last_seen_time,
        }
    }
}

/// What a row of the table `maps` stands for.
pub ghost struct MapRowView {
    pub path: Seq<char>,
    pub offset: i64,
    pub length: i64,
    pub update_time: i64,
}

/// A row of the table `maps`.
#[derive(Clone, Debug, PartialEq, Eq)]
pub struct MapRow {
    pub path: String,
    pub offset: i64,
    pub length: i64,
    pub update_time: i64,
}

impl View for MapRow {
    type V = MapRowView;

    open spec fn view(&self) -> MapRowView {
        MapRowView {
            path: self.path@,
            offset: self.offset,
            length: self.length,
            update_time: self.update_time,
        }
    }
}

/// What a row of the table `exe_maps` stands for.
pub ghost struct ExeMapRowView {
    pub exe_path: Seq<char>,
    pub map_path: Seq<char>,
    pub map_offset: i64,
    pub map_length: i64,
    pub prob: u32,
}

/// A row of the table `exe_maps`.
#[derive(Clone, Debug, PartialEq, Eq)]
pub struct ExeMapRow {
    pub exe_path: String,
    pub map_path: String,
    pub map_offset: i64,
    pub map_length: i64,
    /// The encoded probability.
    pub prob: u32,
}

impl View for ExeMapRow {
    type V = ExeMapRowView;

    open spec fn view(&self) -> ExeMapRowView {
        ExeMapRowView {
            exe_path: self.exe_path@,
            map_path: self.map_path@,
            map_offset: self.map_offset,
            map_length: self.map_length,
            prob: self.prob,
        }
    }
}

/// What a row of the table `markovs` stands for.
pub ghost struct MarkovRowView {
    pub exe_a: Seq<char>,
    pub exe_b: Seq<char>,
    pub time_to_leave: [u32; 4],
    pub transition_prob: [[u32; 4]; 4],
    pub both_running_time: i64,
}

/// A row of the table `markovs`. The two columns of statistics hold the
/// encoded numbers as blobs.
#[derive(Clone, Debug, PartialEq, Eq)]
pub struct MarkovRow {
    pub exe_a: String,
    pub exe_b: String,
    pub time_to_leave: [u32; 4],
    pub transition_prob: [[u32; 4]; 4],
    pub both_running_time: i64,
}

impl View for MarkovRow {
    type V = MarkovRowView;

    open spec fn view(&self) -> MarkovRowView {
        MarkovRowView {
            exe_a: self.exe_a@,
            exe_b: self.exe_b@,
            time_to_leave: self.time_to_leave,
            transition_prob: self.transition_prob,
            both_running_time: self.both_running_time,
        }
    }
}

/// What the rows of a snapshot stand for.
pub ghost struct SnapshotRowsView {
    pub state: Option<StateRowView>,
    pub exes: Seq<ExeRowView>,
    pub maps: Seq<MapRowView>,
    pub exe_maps: Seq<ExeMapRowView>,
    pub markovs: Seq<MarkovRowView>,
}

/// The rows of all the tables. The table `state` holds one row or none.
#[derive(Clone, Debug, PartialEq, Eq)]
pub struct SnapshotRows {
    pub state: Option<StateRow>,
    pub exes: Vec<ExeRow>,
    pub maps: Vec<MapRow>,
    pub exe_maps: Vec<ExeMapRow>,
    pub markovs: Vec<MarkovRow>,
}

impl View for SnapshotRows {
    type V = SnapshotRowsView;

    open spec fn view(&self) -> SnapshotRowsView {
        SnapshotRowsView {
            state: match self.state {
                Some(row) => Some(row@),
                None => None,
            },
            exes: self.exes@.map_values(|r: ExeRow| r@),
            maps: self.maps@.map_values(|r: MapRow| r@),
            exe_maps: self.exe_maps@.map_values(|r: ExeMapRow| r@),
            markovs: self.markovs@.map_values(|r: MarkovRow| r@),
        }
    }
}

/// The row of an executable record.
pub open spec fn exe_row(r: ExeRecordView) -> ExeRowView {
    ExeRowView {
        path: r.path,
        total_running_time: r.total_running_time as i64,
        last_seen_time: match r.last_seen_time {
            Some(t) => Some(t as i64),
            None => None,
        },
    }
}

/// The executable record of a row.
pub open spec fn exe_record(r: ExeRowView) -> ExeRecordView {
    ExeRecordView {
        path: r.path,
        total_running_time: r.total_running_time as u64,
        last_seen_time: match r.last_seen_time {
            Some(t) => Some(t as u64),
            None => None,
        },
    }
}

/// The row of a map record.
pub open spec fn map_row(r: MapSegmentView) -> MapRowView {
    MapRowView {
        path: r.path,
        offset: r.offset as i64,
        length: r.length as i64,
        update_time: r.update_time as i64,
    }
}

/// The map record of a row.
pub open spec fn map_record(r: MapRowView) -> MapSegmentView {
    MapSegmentView {
        path: r.path,
        offset: r.offset as u64,
        length: r.length as u64,
        update_time: r.update_time as u64,
    }
}

/// The row of a record of the incidence relation.
pub open spec fn exe_map_row(r: ExeMapRecordView) -> ExeMapRowView {
    ExeMapRowView {
        exe_path: r.exe_path,
        map_path: r.map_key.path,
        map_offset: r.map_key.offset as i64,
        map_length: r.map_key.length as i64,
        prob: r.prob,
    }
}

/// The record of the incidence relation of a row.
pub open spec fn exe_map_record(r: ExeMapRowView) -> ExeMapRecordView {
    ExeMapRecordView {
        exe_path: r.exe_path,
        map_key: MapKeyView {
            path: r.map_path,
            offset: r.map_offset as u64,
            length: r.map_length as u64,
        },
        prob: r.prob,
    }
}

/// The row of a record of a Markov edge.
pub open spec fn markov_row(r: MarkovRecordView) -> MarkovRowView {
    MarkovRowView {
        exe_a: r.exe_a,
        exe_b: r.exe_b,
        time_to_leave: r.time_to_leave,
        transition_prob: r.transition_prob,
        both_running_time: r.both_running_time as i64,
    }
}

/// The record of a Markov edge of a row.
pub open spec fn markov_record(r: MarkovRowView) -> MarkovRecordView {
    MarkovRecordView {
        exe_a: r.exe_a,
        exe_b: r.exe_b,
        time_to_leave: r.time_to_leave,
        transition_prob: r.transition_prob,
        both_running_time: r.both_running_time as u64,
    }
}

/// The rows of a snapshot.
pub open spec fn rows_of(s: StoresSnapshotView) -> SnapshotRowsView {
    SnapshotRowsView {
        state: Some(
            StateRowView {
                schema_version: s.meta.schema_version as i64,
                app_version: s.meta.app_version,
                created_at: s.meta.created_at,
                model_time: s.state.model_time as i64,
                last_accounting_time: s.state.last_accounting_time as i64,
            },
        ),
        exes: s.state.exes.map_values(|r: ExeRecordView| exe_row(r)),
        maps: s.state.maps.map_values(|r: MapSegmentView| map_row(r)),
        exe_maps: s.state.exe_maps.map_values(|r: ExeMapRecordView| exe_map_row(r)),
        markovs: s.state.markov_edges.map_values(|r: MarkovRecordView| markov_row(r)),
    }
}

/// The snapshot of rows. Where the table `state` is empty, the snapshot is
/// of the current schema version, without a version of the program and
/// without a date, at model time zero.
pub open spec fn snapshot_of(rows: SnapshotRowsView) -> StoresSnapshotView {
    StoresSnapshotView {
        meta: match rows.state {
            Some(row) => SnapshotMetaView {
                schema_version: row.schema_version as u32,
                app_version: row.app_version,
                created_at: row.created_at,
            },
            None => SnapshotMetaView {
                schema_version: SNAPSHOT_SCHEMA_VERSION,
                app_version: None,
                created_at: None,
            },
        },
        state: StateSnapshotView {
            model_time: match rows.state {
                Some(row) => row.model_time as u64,
                None => 0,
            },
            last_accounting_time: match rows.state {
                Some(row) => row.last_accounting_time as u64,
                None => 0,
            },
            exes: rows.exes.map_values(|r: ExeRowView| exe_record(r)),
            maps: rows.maps.map_values(|r: MapRowView| map_record(r)),
            exe_maps: rows.exe_maps.map_values(|r: ExeMapRowView| exe_map_record(r)),
            markov_edges: rows.markovs.map_values(|r: MarkovRowView| markov_record(r)),
        },
    }
}

/// A snapshot comes back from its rows as it was: every value, and every
/// bit of the encoded statistics.
pub proof fn lemma_rows_round_trip(s: StoresSnapshotView)
    ensures
        snapshot_of(rows_of(s)) == s,
{
    lemma_version_kept(s.meta.schema_version);
    lemma_stored_loaded(s.state.model_time);
    lemma_stored_loaded(s.state.last_accounting_time);
    let back = snapshot_of(rows_of(s));
    assert forall|i: int| 0 <= i < s.state.exes.len() implies back.state.exes[i]
        == s.state.exes[i] by {
        lemma_stored_loaded(s.state.exes[i].total_running_time);
        if s.state.exes[i].last_seen_time is Some {
            lemma_stored_loaded(s.state.exes[i].last_seen_time->0);
        }
    }
    assert(back.state.exes =~= s.state.exes);
    assert forall|i: int| 0 <= i < s.state.maps.len() implies back.state.maps[i]
        == s.state.maps[i] by {
        lemma_stored_loaded(s.state.maps[i].offset);
        lemma_stored_loaded(s.state.maps[i].length);
        lemma_stored_loaded(s.state.maps[i].update_time);
    }
    assert(back.state.maps =~= s.state.maps);
    assert forall|i: int| 0 <= i < s.state.exe_maps.len() implies back.state.exe_maps[i]
        == s.state.exe_maps[i] by {
        lemma_stored_loaded(s.state.exe_maps[i].map_key.offset);
        lemma_stored_loaded(s.state.exe_maps[i].map_key.length);
    }
    assert(back.state.exe_maps =~= s.state.exe_maps);
    assert forall|i: int| 0 <= i < s.state.markov_edges.len() implies back.state.markov_edges[i]
        == s.state.markov_edges[i] by {
        lemma_stored_loaded(s.state.markov_edges[i].both_running_time);
    }
    assert(back.state.markov_edges =~= s.state.markov_edges);
}

/// The rows that hold `snapshot`.
pub fn to_rows(snapshot: &StoresSnapshot) -> (r: SnapshotRows)
    ensures
        r@ == rows_of(snapshot@),
{
    let state = StateRow {
        schema_version: snapshot.meta.schema_version as i64,
        app_version: match &snapshot.meta.app_version {
            Some(v) => Some(v.clone()),
            None => None,
        },
        created_at: snapshot.meta.created_at,
        model_time: stored(snapshot.state.model_time),
        last_accounting_time: stored(snapshot.state.last_accounting_time),
    };
    let mut exes: Vec<ExeRow> = Vec::new();
    let mut i: usize = 0;
    while i < snapshot.state.exes.len()
        invariant
            i <= snapshot.state.exes@.len(),
            exes@.len() == i,
            forall|k: int| 0 <= k < i ==> (#[trigger] exes@[k])@ == exe_row(snapshot.state.exes@[k]@),
        decreases snapshot.state.exes@.len() - i,
    {
        let rec = &snapshot.state.exes[i];
        exes.push(
            ExeRow {
                path: rec.path.clone(),
                total_running_time: stored(rec.total_running_time),
                last_seen_time: match rec.last_seen_time {
                    Some(t) => Some(stored(t)),
                    None => None,
                },
            },
        );
        i += 1;
    }
    let mut maps: Vec<MapRow> = Vec::new();
    let mut i: usize = 0;
    while i < snapshot.state.maps.len()
        invariant
            i <= snapshot.state.maps@.len(),
            maps@.len() == i,
            forall|k: int| 0 <= k < i ==> (#[trigger] maps@[k])@ == map_row(snapshot.state.maps@[k]@),
        decreases snapshot.state.maps@.len() - i,
    {
        let rec = &snapshot.state.maps[i];
        maps.push(
            MapRow {
                path: rec.path.clone(),
                offset: stored(rec.offset),
                length: stored(rec.length),
                update_time: stored(rec.update_time),
            },
        );
        i += 1;
    }
    let mut exe_maps: Vec<ExeMapRow> = Vec::new();
    let mut i: usize = 0;
    while i < snapshot.state.exe_maps.len()
        invariant
            i <= snapshot.state.exe_maps@.len(),
            exe_maps@.len() == i,
            forall|k: int|
                0 <= k < i ==> (#[trigger] exe_maps@[k])@ == exe_map_row(
                    snapshot.state.exe_maps@[k]@,
                ),
        decreases snapshot.state.exe_maps@.len() - i,
    {
        let rec = &snapshot.state.exe_maps[i];
        exe_maps.push(
            ExeMapRow {
                exe_path: rec.exe_path.clone(),
                map_path: rec.map_key.path.clone(),
                map_offset: stored(rec.map_key.offset),
                map_length: stored(rec.map_key.length),
                prob: rec.prob,
            },
        );
        i += 1;
    }
    let mut markovs: Vec<MarkovRow> = Vec::new();
    let mut i: usize = 0;
    while i < snapshot.state.markov_edges.len()
        invariant
            i <= snapshot.state.markov_edges@.len(),
            markovs@.len() == i,
            forall|k: int|
                0 <= k < i ==> (#[trigger] markovs@[k])@ == markov_row(
                    snapshot.state.markov_edges@[k]@,
                ),
        decreases snapshot.state.markov_edges@.len() - i,
    {
        let rec = &snapshot.state.markov_edges[i];
        markovs.push(
            MarkovRow {
                exe_a: rec.exe_a.clone(),
                exe_b: rec.exe_b.clone(),
                time_to_leave: rec.time_to_leave,
                transition_prob: rec.transition_prob,
                both_running_time: stored(rec.both_running_time),
            },
        );
        i += 1;
    }
    let r = SnapshotRows { state: Some(state), exes, maps, exe_maps, markovs };
    proof {
        assert(r@.exes =~= rows_of(snapshot@).exes);
        assert(r@.maps =~= rows_of(snapshot@).maps);
        assert(r@.exe_maps =~= rows_of(snapshot@).exe_maps);
        assert(r@.markovs =~= rows_of(snapshot@).markovs);
    }
    r
}

/// The snapshot that `rows` hold.
pub fn from_rows(rows: &SnapshotRows) -> (r: StoresSnapshot)
    ensures
        r@ == snapshot_of(rows@),
{
    let mut meta = SnapshotMeta {
        schema_version: SNAPSHOT_SCHEMA_VERSION,
        app_version: None,
        created_at: None,
    };
    let mut model_time: u64 = 0;
    let mut last_accounting_time: u64 = 0;
    match &rows.state {
        Some(row) => {
            meta.schema_version = row.schema_version as u32;
            meta.app_version = match &row.app_version {
                Some(v) => Some(v.clone()),
                None => None,
            };
            meta.created_at = row.created_at;
            model_time = loaded(row.model_time);
            last_accounting_time = loaded(row.last_accounting_time);
        },
        None => {},
    }
    let mut exes: Vec<ExeRecord> = Vec::new();
    let mut i: usize = 0;
    while i < rows.exes.len()
        invariant
            i <= rows.exes@.len(),
            exes@.len() == i,
            forall|k: int| 0 <= k < i ==> (#[trigger] exes@[k])@ == exe_record(rows.exes@[k]@),
        decreases rows.exes@.len() - i,
    {
        let row = &rows.exes[i];
        exes.push(
            ExeRecord {
                path: row.path.clone(),
                total_running_time: loaded(row.total_running_time),
                last_seen_time: match row.last_seen_time {
                    Some(t) => Some(loaded(t)),
                    None => None,
                },
            },
        );
        i += 1;
    }
    let mut maps: Vec<MapRecord> = Vec::new();
    let mut i: usize = 0;
    while i < rows.maps.len()
        invariant
            i <= rows.maps@.len(),
            maps@.len() == i,
            forall|k: int| 0 <= k < i ==> (#[trigger] maps@[k])@ == map_record(rows.maps@[k]@),
        decreases rows.maps@.len() - i,
    {
        let row = &rows.maps[i];
        maps.push(
            MapRecord {
                path: row.path.clone(),
                offset: loaded(row.offset),
                length: loaded(row.length),
                update_time: loaded(row.update_time),
            },
        );
        i += 1;
    }
    let mut exe_maps: Vec<ExeMapRecord> = Vec::new();
    let mut i: usize = 0;
    while i < rows.exe_maps.len()
        invariant
            i <= rows.exe_maps@.len(),
            exe_maps@.len() == i,
            forall|k: int|
                0 <= k < i ==> (#[trigger] exe_maps@[k])@ == exe_map_record(rows.exe_maps@[k]@),
        decreases rows.exe_maps@.len() - i,
    {
        let row = &rows.exe_maps[i];
        exe_maps.push(
            ExeMapRecord {
                exe_path: row.exe_path.clone(),
                map_key: MapKey {
                    path: row.map_path.clone(),
                    offset: loaded(row.map_offset),
                    length: loaded(row.map_length),
                },
                prob: row.prob,
            },
        );
        i += 1;
    }
    let mut markov_edges: Vec<MarkovRecord> = Vec::new();
    let mut i: usize = 0;
    while i < rows.markovs.len()
        invariant
            i <= rows.markovs@.len(),
            markov_edges@.len() == i,
            forall|k: int|
                0 <= k < i ==> (#[trigger] markov_edges@[k])@ == markov_record(rows.markovs@[k]@),
        decreases rows.markovs@.len() - i,
    {
        let row = &rows.markovs[i];
        markov_edges.push(
            MarkovRecord {
                exe_a: row.exe_a.clone(),
                exe_b: row.exe_b.clone(),
                time_to_leave: row.time_to_leave,
                transition_prob: row.transition_prob,
                both_running_time: loaded(row.both_running_time),
            },
        );
        i += 1;
    }
    let r = StoresSnapshot {
        meta,
        state: StateSnapshot {
            model_time,
            last_accounting_time,
            exes,
            maps,
            exe_maps,
            markov_edges,
        },
    };
    proof {
        assert(r@.state.exes =~= snapshot_of(rows@).state.exes);
        assert(r@.state.maps =~= snapshot_of(rows@).state.maps);
        assert(r@.state.exe_maps =~= snapshot_of(rows@).state.exe_maps);
        assert(r@.state.markov_edges =~= snapshot_of(rows@).state.markov_edges);
    }
    r
}

} // verus!
