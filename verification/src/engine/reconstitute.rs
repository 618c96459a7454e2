//! From the stores to a snapshot and back.

use vstd::prelude::*;
use crate::domain::{elapsed, ExeId, ExeKey, MapId, MapSegment, MapSegmentView, MarkovState};
use crate::error::{Error, ErrorView};
use crate::persistence::snapshot::{
    ExeMapRecord, ExeMapRecordView, ExeRecord, ExeRecordView, MapRecord, MarkovRecord,
    MarkovRecordView, SnapshotMeta, SnapshotMetaView, StateSnapshot, StateSnapshotView,
    StoresSnapshot, SNAPSHOT_SCHEMA_VERSION,
};
use crate::prediction::SCORE_ONE;
use crate::stores::edge_key::EdgeKey;
use crate::stores::records::{exe_slot, map_slot, ExeStore};
use crate::stores::state::{Stores, StoresView};

verus! {

/// The records of the executables of `v`.
pub open spec fn exe_records(v: StoresView) -> Seq<ExeRecordView> {
    Seq::new(
        v.exes.len(),
        |i: int|
            ExeRecordView {
                path: v.exes[i].path,
                total_running_time: v.exes[i].total_running_time,
                last_seen_time: v.exes[i].last_seen_time,
            },
    )
}

/// The records of the incidence relation of `v`, in the order in which
/// the pairs were attached.
pub open spec fn exe_map_records(v: StoresView) -> Seq<ExeMapRecordView> {
    Seq::new(
        v.exe_maps.len(),
        |i: int|
            ExeMapRecordView {
                exe_path: v.exes[v.exe_maps[i].0.0 as int].path,
                map_key: v.maps[v.exe_maps[i].1.0 as int].key(),
                prob: SCORE_ONE,
            },
    )
}

/// The records of the Markov edges of `v`, in the order in which the
/// edges were created.
pub open spec fn markov_records(v: StoresView) -> Seq<MarkovRecordView> {
    Seq::new(
        v.markov.len(),
        |i: int|
            MarkovRecordView {
                exe_a: v.exes[v.markov[i].0.0.0 as int].path,
                exe_b: v.exes[v.markov[i].0.1.0 as int].path,
                time_to_leave: v.markov[i].1.time_to_leave,
                transition_prob: v.markov[i].1.transition_prob,
                both_running_time: v.markov[i].1.both_running_time,
            },
    )
}

/// The state that a snapshot of `v` holds.
pub open spec fn state_of(v: StoresView) -> StateSnapshotView {
    StateSnapshotView {
        model_time: v.model_time,
        last_accounting_time: v.last_accounting_time,
        exes: exe_records(v),
        maps: v.maps,
        exe_maps: exe_map_records(v),
        markov_edges: markov_records(v),
    }
}

/// The snapshot of `stores`, taken at `created_at` seconds since the epoch:
/// every executable, every map segment, every pair of the incidence
/// relation and every Markov edge, each in the order of the stores, with
/// executables named by their paths and maps by their keys.
pub fn snapshot_from_stores(stores: &Stores, created_at: Option<u64>) -> (r: StoresSnapshot)
    requires
        stores.wf(),
    ensures
        r@.state == state_of(stores@),
        r@.meta == (SnapshotMetaView {
            schema_version: SNAPSHOT_SCHEMA_VERSION,
            app_version: None,
            created_at,
        }),
{
    proof {
        stores.lemma_valid();
    }
    let ghost v = stores@;
    let mut exes: Vec<ExeRecord> = Vec::new();
    let mut i: usize = 0;
    while i < stores.exes().len()
        invariant
            i <= v.exes.len(),
            v == stores@,
            exes@.len() == i,
            forall|k: int| 0 <= k < i ==> (#[trigger] exes@[k])@ == exe_records(v)[k],
        decreases v.exes.len() - i,
    {
        match stores.exes().get(ExeId(i)) {
            Some(exe) => {
                exes.push(
                    ExeRecord {
                        path: exe.key.path().clone(),
                        total_running_time: exe.total_running_time,
                        last_seen_time: exe.last_seen_time,
                    },
                );
            },
            None => {},
        }
        i += 1;
    }
    let mut maps: Vec<MapRecord> = Vec::new();
    let mut i: usize = 0;
    while i < stores.maps().len()
        invariant
            i <= v.maps.len(),
            v == stores@,
            maps@.len() == i,
            forall|k: int| 0 <= k < i ==> (#[trigger] maps@[k])@ == v.maps[k],
        decreases v.maps.len() - i,
    {
        match stores.maps().get(MapId(i)) {
            Some(map) => {
                maps.push(
                    MapRecord {
                        path: map.path.clone(),
                        offset: map.offset,
                        length: map.length,
                        update_time: map.update_time,
                    },
                );
            },
            None => {},
        }
        i += 1;
    }
    let mut exe_maps: Vec<ExeMapRecord> = Vec::new();
    let mut i: usize = 0;
    while i < stores.exe_maps().len()
        invariant
            i <= v.exe_maps.len(),
            v == stores@,
            v.valid(),
            exe_maps@.len() == i,
            forall|k: int| 0 <= k < i ==> (#[trigger] exe_maps@[k])@ == exe_map_records(v)[k],
        decreases v.exe_maps.len() - i,
    {
        let pair = stores.exe_maps().pair(i);
        assert(v.has_exe(v.exe_maps[i as int].0) && v.has_map(v.exe_maps[i as int].1));
        match (stores.exes().get(pair.0), stores.maps().get(pair.1)) {
            (Some(exe), Some(map)) => {
                exe_maps.push(
                    ExeMapRecord {
                        exe_path: exe.key.path().clone(),
                        map_key: map.key(),
                        prob: SCORE_ONE,
                    },
                );
            },
            _ => {},
        }
        i += 1;
    }
    let mut markov_edges: Vec<MarkovRecord> = Vec::new();
    let mut i: usize = 0;
    while i < stores.markov().len()
        invariant
            i <= v.markov.len(),
            v == stores@,
            v.valid(),
            markov_edges@.len() == i,
            forall|k: int| 0 <= k < i ==> (#[trigger] markov_edges@[k])@ == markov_records(v)[k],
        decreases v.markov.len() - i,
    {
        let (key, edge) = stores.markov().entry(i);
        assert(v.markov[i as int].0.proper() && v.has_exe(v.markov[i as int].0.1));
        match (stores.exes().get(key.a()), stores.exes().get(key.b())) {
            (Some(exe_a), Some(exe_b)) => {
                markov_edges.push(
                    MarkovRecord {
                        exe_a: exe_a.key.path().clone(),
                        exe_b: exe_b.key.path().clone(),
                        time_to_leave: edge.time_to_leave,
                        transition_prob: edge.transition_prob,
                        both_running_time: edge.both_running_time,
                    },
                );
            },
            _ => {},
        }
        i += 1;
    }
    let r = StoresSnapshot {
        meta: SnapshotMeta {
            schema_version: SNAPSHOT_SCHEMA_VERSION,
            app_version: None,
            created_at,
        },
        state: StateSnapshot {
            model_time: stores.model_time(),
            last_accounting_time: stores.last_accounting_time(),
            exes,
            maps,
            exe_maps,
            markov_edges,
        },
    };
    proof {
        assert(r@.state.exes =~= exe_records(v));
        assert(r@.state.maps =~= v.maps);
        assert(r@.state.exe_maps =~= exe_map_records(v));
        assert(r@.state.markov_edges =~= markov_records(v));
    }
    r
}

/// The stores after the map segments `maps` were inserted in order.
pub open spec fn load_maps(v: StoresView, maps: Seq<MapSegmentView>) -> StoresView
    decreases maps.len(),
{
    if maps.len() == 0 {
        v
    } else {
        load_maps(v, maps.drop_last()).ensure_map(maps.last())
    }
}

/// The stores after the executable of `record` was inserted with its times.
pub open spec fn load_exe(v: StoresView, record: ExeRecordView) -> StoresView {
    v.ensure_exe(record.path).restore_exe(
        ExeStore::ensured(v.exes, record.path).1,
        record.total_running_time,
        record.last_seen_time,
    )
}

/// The stores after the executables `exes` were inserted in order.
pub open spec fn load_exes(v: StoresView, exes: Seq<ExeRecordView>) -> StoresView
    decreases exes.len(),
{
    if exes.len() == 0 {
        v
    } else {
        load_exe(load_exes(v, exes.drop_last()), exes.last())
    }
}

/// Whether the executable in slot `i` was seen within `window` of the
/// model time.
pub open spec fn seen_lately(v: StoresView, i: int, window: u64) -> bool {
    v.exes[i].last_seen_time matches Some(t) && elapsed(v.model_time, t) <= window
}

/// The stores after each of the first `n` executables that was seen within
/// `window` of the model time was made active as of the model time.
pub open spec fn load_active(v: StoresView, n: nat, window: u64) -> StoresView
    decreases n,
{
    if n == 0 {
        v
    } else {
        let w = load_active(v, (n - 1) as nat, window);
        if seen_lately(w, n - 1, window) {
            w.touch_active(ExeId((n - 1) as usize), w.model_time)
        } else {
            w
        }
    }
}

/// Why the pair `record` cannot be attached, if it cannot: its executable
/// is missing, or else its map is.
pub open spec fn pair_error(v: StoresView, record: ExeMapRecordView) -> Option<ErrorView> {
    if exe_slot(v.exes, record.exe_path) is None {
        Some(ErrorView::ExeMissing(record.exe_path))
    } else if map_slot(v.maps, record.map_key) is None {
        Some(ErrorView::MapMissing(record.map_key.path))
    } else {
        None
    }
}

/// Why the edge `record` cannot be created, if it cannot: its first
/// executable is missing, or else its second is.
pub open spec fn edge_error(v: StoresView, record: MarkovRecordView) -> Option<ErrorView> {
    if exe_slot(v.exes, record.exe_a) is None {
        Some(ErrorView::ExeMissing(record.exe_a))
    } else if exe_slot(v.exes, record.exe_b) is None {
        Some(ErrorView::ExeMissing(record.exe_b))
    } else {
        None
    }
}

/// For each pair of `records`, why it cannot be attached, if it cannot.
pub open spec fn pair_errors(v: StoresView, records: Seq<ExeMapRecordView>) -> Seq<
    Option<ErrorView>,
> {
    records.map_values(|r: ExeMapRecordView| pair_error(v, r))
}

/// For each edge of `records`, why it cannot be created, if it cannot.
pub open spec fn edge_errors(v: StoresView, records: Seq<MarkovRecordView>) -> Seq<
    Option<ErrorView>,
> {
    records.map_values(|r: MarkovRecordView| edge_error(v, r))
}

/// The first error among `errors`, if there is one.
pub open spec fn first_error(errors: Seq<Option<ErrorView>>) -> Option<ErrorView>
    decreases errors.len(),
{
    if errors.len() == 0 {
        None
    } else if errors[0] is Some {
        errors[0]
    } else {
        first_error(errors.drop_first())
    }
}

/// The stores after the pair `record` was attached.
pub open spec fn load_pair(v: StoresView, record: ExeMapRecordView) -> StoresView {
    v.attach_map(exe_slot(v.exes, record.exe_path)->0, map_slot(v.maps, record.map_key)->0)
}

/// The stores after the pairs `records` were attached in order.
pub open spec fn load_pairs(v: StoresView, records: Seq<ExeMapRecordView>) -> StoresView
    decreases records.len(),
{
    if records.len() == 0 {
        v
    } else {
        load_pair(load_pairs(v, records.drop_last()), records.last())
    }
}

/// The stores after the edge of `record` was created: it starts at the
/// model time in `Neither` and takes the statistics of the record. Where
/// the pair has an edge already, or the two executables are one, nothing
/// changes.
pub open spec fn load_edge(v: StoresView, record: MarkovRecordView) -> StoresView {
    let a = exe_slot(v.exes, record.exe_a)->0;
    let b = exe_slot(v.exes, record.exe_b)->0;
    if v.lacks_edge(a, b) {
        v.ensure_markov_edge(a, b, v.model_time, MarkovState::Neither).restore_edge(
            EdgeKey::of(a, b),
            record.time_to_leave,
            record.transition_prob,
            record.both_running_time,
        )
    } else {
        v
    }
}

/// The stores after the edges `records` were created in order.
pub open spec fn load_edges(v: StoresView, records: Seq<MarkovRecordView>) -> StoresView
    decreases records.len(),
{
    if records.len() == 0 {
        v
    } else {
        load_edge(load_edges(v, records.drop_last()), records.last())
    }
}

/// The stores that hold the records `exes` and `maps` of a snapshot, with
/// the clock of the snapshot and the active set rebuilt for `window`.
pub open spec fn loaded_records(state: StateSnapshotView, window: u64) -> StoresView {
    let start = StoresView {
        model_time: state.model_time,
        last_accounting_time: state.last_accounting_time,
        ..StoresView::empty()
    };
    let with_exes = load_exes(load_maps(start, state.maps), state.exes);
    load_active(with_exes, with_exes.exes.len(), window)
}

/// Why the snapshot `state` is rejected, if it is: the first pair of the
/// incidence relation that names an executable or a map which the snapshot
/// does not hold, or else the first Markov edge that names such an
/// executable.
pub open spec fn rejection(state: StateSnapshotView, window: u64) -> Option<ErrorView> {
    let v = loaded_records(state, window);
    first_error(pair_errors(v, state.exe_maps) + edge_errors(v, state.markov_edges))
}

/// The stores that the snapshot `state` stands for: its maps, then its
/// executables, the active set rebuilt from the times the executables were
/// last seen, then the incidence relation, then the Markov edges, and of
/// these only the ones between active executables.
pub open spec fn restored(state: StateSnapshotView, window: u64) -> StoresView {
    load_edges(
        load_pairs(loaded_records(state, window), state.exe_maps),
        state.markov_edges,
    ).prune_edges()
}

proof fn lemma_first_error_skip(errors: Seq<Option<ErrorView>>, i: int)
    requires
        0 <= i <= errors.len(),
        forall|j: int| 0 <= j < i ==> errors[j] is None,
    ensures
        first_error(errors) == first_error(errors.skip(i)),
    decreases i,
{
    if i == 0 {
        assert(errors.skip(0) =~= errors);
    } else {
        lemma_first_error_skip(errors.drop_first(), i - 1);
        assert(errors.drop_first().skip(i - 1) =~= errors.skip(i));
        assert(errors[0] is None);
    }
}

/// The stores that `snapshot` stands for, or why it is rejected.
///
/// The maps are inserted, then the executables with their times; every
/// executable last seen within `active_window` of the model time becomes
/// active as of the model time. Then each pair of the incidence relation
/// is attached and each Markov edge created between the executables that
/// its paths name; an edge starts in `Neither` at the model time and takes
/// the statistics of its record as they are. A record that names an
/// executable or a map which the snapshot does not hold rejects the
/// snapshot. At the end every edge of which an executable is not active
/// is dropped.
pub fn stores_from_snapshot(snapshot: StoresSnapshot, active_window: u64) -> (r: Result<
    Stores,
    Error,
>)
    ensures
        match r {
            Ok(stores) => {
                &&& rejection(snapshot@.state, active_window) is None
                &&& stores.wf()
                &&& stores@ == restored(snapshot@.state, active_window)
                &&& stores@.edges_active()
            },
            Err(e) => rejection(snapshot@.state, active_window) == Some(e@),
        },
{
    let ghost state = snapshot@.state;
    let mut stores = Stores::new();
    stores.set_model_time(snapshot.state.model_time);
    stores.set_last_accounting_time(snapshot.state.last_accounting_time);
    let ghost start = stores@;
    let now = snapshot.state.model_time;

    let maps = &snapshot.state.maps;
    let mut i: usize = 0;
    while i < maps.len()
        invariant
            i <= maps@.len(),
            stores.wf(),
            state.maps == maps@.map_values(|r: MapRecord| r@),
            stores@ == load_maps(start, state.maps.take(i as int)),
            stores@.model_time == now,
        decreases maps@.len() - i,
    {
        let rec = &maps[i];
        proof {
            assert(state.maps.take(i + 1).drop_last() =~= state.maps.take(i as int));
            assert(state.maps.take(i + 1).last() == rec@);
        }
        stores.ensure_map(
            MapSegment {
                path: rec.path.clone(),
                offset: rec.offset,
                length: rec.length,
                update_time: rec.update_time,
            },
        );
        i += 1;
    }
    assert(state.maps.take(i as int) =~= state.maps);

    let ghost with_maps = stores@;
    let exes = &snapshot.state.exes;
    let mut i: usize = 0;
    while i < exes.len()
        invariant
            i <= exes@.len(),
            stores.wf(),
            state.exes == exes@.map_values(|r: ExeRecord| r@),
            stores@ == load_exes(with_maps, state.exes.take(i as int)),
            stores@.model_time == now,
        decreases exes@.len() - i,
    {
        let rec = &exes[i];
        proof {
            assert(state.exes.take(i + 1).drop_last() =~= state.exes.take(i as int));
            assert(state.exes.take(i + 1).last() == rec@);
        }
        let id = stores.ensure_exe(ExeKey::new(rec.path.as_str()));
        stores.restore_exe(id, rec.total_running_time, rec.last_seen_time);
        i += 1;
    }
    assert(state.exes.take(i as int) =~= state.exes);

    let ghost with_exes = stores@;
    let count = stores.exes().len();
    let mut i: usize = 0;
    while i < count
        invariant
            i <= count,
            count == with_exes.exes.len(),
            stores.wf(),
            now == with_exes.model_time,
            stores@ == load_active(with_exes, i as nat, active_window),
            stores@.exes == with_exes.exes,
            stores@.model_time == with_exes.model_time,
        decreases count - i,
    {
        let lately = match stores.exes().get(ExeId(i)) {
            Some(exe) => match exe.last_seen_time {
                Some(t) => (if now >= t {
                    now - t
                } else {
                    0
                }) <= active_window,
                None => false,
            },
            None => false,
        };
        if lately {
            stores.touch_active(ExeId(i), now);
        }
        i += 1;
    }
    let ghost base = stores@;
    assert(base == loaded_records(state, active_window));

    let ghost errors = pair_errors(base, state.exe_maps) + edge_errors(base, state.markov_edges);

    let pairs = &snapshot.state.exe_maps;
    let mut i: usize = 0;
    while i < pairs.len()
        invariant
            i <= pairs@.len(),
            stores.wf(),
            state.exe_maps == pairs@.map_values(|r: ExeMapRecord| r@),
            errors == pair_errors(base, state.exe_maps) + edge_errors(base, state.markov_edges),
            state == snapshot@.state,
            base == loaded_records(state, active_window),
            stores@ == load_pairs(base, state.exe_maps.take(i as int)),
            stores@.exes == base.exes,
            stores@.maps == base.maps,
            stores@.model_time == base.model_time,
            forall|j: int| 0 <= j < i ==> errors[j] is None,
        decreases pairs@.len() - i,
    {
        let rec = &pairs[i];
        proof {
            assert(state.exe_maps.take(i + 1).drop_last() =~= state.exe_maps.take(i as int));
            assert(state.exe_maps.take(i + 1).last() == rec@);
            assert(errors[i as int] == pair_error(base, rec@));
            lemma_first_error_skip(errors, i as int);
            assert(errors.skip(i as int)[0] == errors[i as int]);
        }
        let exe_id = match stores.exes().id_by_key(&ExeKey::new(rec.exe_path.as_str())) {
            Some(id) => id,
            None => {
                return Err(Error::ExeMissing(rec.exe_path.clone()));
            },
        };
        let map_id = match stores.maps().id_by_key(&rec.map_key) {
            Some(id) => id,
            None => {
                return Err(Error::MapMissing(rec.map_key.path.clone()));
            },
        };
        stores.attach_map(exe_id, map_id);
        i += 1;
    }
    assert(state.exe_maps.take(i as int) =~= state.exe_maps);

    let ghost with_pairs = stores@;
    let edges = &snapshot.state.markov_edges;
    let offset = pairs.len();
    let mut i: usize = 0;
    while i < edges.len()
        invariant
            i <= edges@.len(),
            stores.wf(),
            state.markov_edges == edges@.map_values(|r: MarkovRecord| r@),
            errors == pair_errors(base, state.exe_maps) + edge_errors(base, state.markov_edges),
            state == snapshot@.state,
            base == loaded_records(state, active_window),
            offset == state.exe_maps.len(),
            now == base.model_time,
            stores@ == load_edges(with_pairs, state.markov_edges.take(i as int)),
            stores@.exes == base.exes,
            stores@.model_time == base.model_time,
            forall|j: int| 0 <= j < offset + i ==> errors[j] is None,
        decreases edges@.len() - i,
    {
        let rec = &edges[i];
        proof {
            assert(state.markov_edges.take(i + 1).drop_last() =~= state.markov_edges.take(
                i as int,
            ));
            assert(state.markov_edges.take(i + 1).last() == rec@);
            assert(errors[offset + i] == edge_error(base, rec@));
            lemma_first_error_skip(errors, offset + i);
            assert(errors.skip(offset + i)[0] == errors[offset + i]);
        }
        let a = match stores.exes().id_by_key(&ExeKey::new(rec.exe_a.as_str())) {
            Some(id) => id,
            None => {
                return Err(Error::ExeMissing(rec.exe_a.clone()));
            },
        };
        let b = match stores.exes().id_by_key(&ExeKey::new(rec.exe_b.as_str())) {
            Some(id) => id,
            None => {
                return Err(Error::ExeMissing(rec.exe_b.clone()));
            },
        };
        if stores.ensure_markov_edge(a, b, now, MarkovState::Neither) {
            stores.restore_edge(
                EdgeKey::new(a, b),
                rec.time_to_leave,
                rec.transition_prob,
                rec.both_running_time,
            );
        }
        i += 1;
    }
    proof {
        assert(state.markov_edges.take(i as int) =~= state.markov_edges);
        lemma_first_error_skip(errors, errors.len() as int);
        assert(errors.skip(errors.len() as int) =~= Seq::<Option<ErrorView>>::empty());
    }
    stores.prune_edges();
    Ok(stores)
}

} // verus!
