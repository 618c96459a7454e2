use orchestrator::domain::{ExeId, ExeKey, MapKey, MapSegment, MarkovState, MemStat};
use orchestrator::observation::{
    extract_memstat, synthetic_observation, AdmissionPolicy, MinSizeAdmission, ModelDelta,
    ObservationEvent, ScanWarning,
};
use orchestrator::stores::{EdgeKey, Stores};
use orchestrator::updater::ModelUpdater;

fn begin(time: u64) -> ObservationEvent {
    ObservationEvent::ObsBegin { time, scan_id: 1 }
}

fn end(time: u64) -> ObservationEvent {
    ObservationEvent::ObsEnd { time, scan_id: 1, warnings: Vec::new() }
}

fn exe(path: &str) -> ObservationEvent {
    ObservationEvent::ExeSeen { path: path.to_string(), pid: 1 }
}

fn map(exe_path: &str, path: &str, length: u64) -> ObservationEvent {
    ObservationEvent::MapSeen {
        exe_path: exe_path.to_string(),
        map: MapSegment::new(path, 0, length, 0),
    }
}

fn scan(running: &[&str]) -> Vec<ObservationEvent> {
    let mut events = vec![begin(0)];
    for path in running {
        events.push(exe(path));
        events.push(map(path, &format!("{}.so", path), 4_000_000));
    }
    events.push(end(0));
    events
}

fn every_edge_is_between_active_executables(stores: &Stores) {
    for i in 0..stores.markov().len() {
        let (key, _) = stores.markov().entry(i);
        assert!(stores.exes().contains(key.a()));
        assert!(stores.exes().contains(key.b()));
        assert!(stores.active().contains(key.a()));
        assert!(stores.active().contains(key.b()));
        assert!(key.a().0 < key.b().0);
    }
}

#[test]
fn default_admission_goes_by_size() {
    let policy = MinSizeAdmission { minsize: 2_000_000 };
    assert!(policy.accept("/bin/big", 2_000_000));
    assert!(policy.accept("/bin/big", u64::MAX));
    assert!(!policy.accept("/bin/tiny", 1_999_999));
    assert!(MinSizeAdmission { minsize: 0 }.accept("/bin/none", 0));
}

#[test]
fn memstat_is_the_first_of_the_stream() {
    let first = MemStat { total: 1, free: 2, cached: 3, pagein: 4, pageout: 5 };
    let second = MemStat { total: 9, free: 9, cached: 9, pagein: 9, pageout: 9 };
    let events = vec![
        begin(0),
        ObservationEvent::MemStat { mem: first },
        exe("/bin/a"),
        ObservationEvent::MemStat { mem: second },
        end(0),
    ];
    assert_eq!(extract_memstat(&events), Some(first));
    assert_eq!(extract_memstat(&vec![begin(0), end(0)]), None);
    assert_eq!(extract_memstat(&Vec::new()), None);
}

#[test]
fn synthetic_observation_opens_and_closes() {
    let events = synthetic_observation(40, 3);
    assert_eq!(
        events,
        vec![
            ObservationEvent::ObsBegin { time: 40, scan_id: 3 },
            ObservationEvent::ObsEnd { time: 40, scan_id: 3, warnings: Vec::<ScanWarning>::new() },
        ]
    );
}

#[test]
fn new_exe_below_minsize_is_remembered_as_bad() {
    let mut stores = Stores::new();
    let updater = ModelUpdater::new(21_600);
    let policy = MinSizeAdmission { minsize: 2_000_000 };
    let events = vec![begin(0), exe("/bin/tiny"), map("/bin/tiny", "/lib/t.so", 1024), end(0)];

    let update = updater.apply(&mut stores, &events, &policy);
    assert_eq!(
        update.delta,
        ModelDelta { new_exes: 0, new_maps: 0, new_edges: 0, pruned_edges: 0 }
    );
    assert!(stores.is_bad_exe(&"/bin/tiny".to_string()));
    assert_eq!(stores.bad_exe(0).size, 1024);
    assert_eq!(stores.exes().len(), 0);
    assert_eq!(stores.exes().id_by_key(&ExeKey::new("/bin/tiny")), None);
    assert_eq!(stores.maps().len(), 0);

    // the same input again adds nothing
    let update = updater.apply(&mut stores, &events, &policy);
    assert_eq!(update.delta, ModelDelta::default());
    assert_eq!(stores.bad_exe_count(), 1);
    assert_eq!(stores.exes().len(), 0);

    // and the executable is not promoted when it has grown
    let events = vec![begin(0), exe("/bin/tiny"), map("/bin/tiny", "/lib/t.so", 9_000_000), end(0)];
    updater.apply(&mut stores, &events, &policy);
    assert_eq!(stores.exes().len(), 0);
}

#[test]
fn admitted_exe_is_inserted_with_its_maps() {
    let mut stores = Stores::new();
    stores.set_model_time(100);
    let updater = ModelUpdater::new(21_600);
    let policy = MinSizeAdmission { minsize: 3000 };
    let events = vec![
        begin(100),
        exe("/bin/a"),
        map("/bin/a", "/lib/x.so", 1000),
        map("/bin/a", "/lib/y.so", 2000),
        map("/bin/other", "/lib/z.so", 5000),
        end(100),
    ];
    let update = updater.apply(&mut stores, &events, &policy);
    assert_eq!(
        update.delta,
        ModelDelta { new_exes: 1, new_maps: 2, new_edges: 0, pruned_edges: 0 }
    );
    let a = stores.exes().id_by_key(&ExeKey::new("/bin/a")).unwrap();
    let rec = stores.exes().get(a).unwrap();
    assert!(rec.running);
    assert_eq!(rec.last_seen_time, Some(100));
    assert_eq!(rec.change_time, 100);
    // the accounting window is 100 - 0
    assert_eq!(rec.total_running_time, 100);
    assert_eq!(stores.last_accounting_time(), 100);
    let x = stores.maps().id_by_key(&MapKey::new("/lib/x.so", 0, 1000)).unwrap();
    let y = stores.maps().id_by_key(&MapKey::new("/lib/y.so", 0, 2000)).unwrap();
    assert_eq!(stores.exe_maps().maps_for_exe(a), vec![x, y]);
    assert_eq!(stores.maps().get(x).unwrap().update_time, 100);
    // the map of an executable that was not seen is not taken
    assert_eq!(stores.maps().id_by_key(&MapKey::new("/lib/z.so", 0, 5000)), None);
    assert!(stores.active().contains(a));
    assert_eq!(stores.active().last_seen(a), Some(100));
}

#[test]
fn edges_are_created_settled_and_accounted() {
    let mut stores = Stores::new();
    let updater = ModelUpdater::new(100);
    let policy = MinSizeAdmission { minsize: 1 };

    // tick 0: a and b run
    let update = updater.apply(&mut stores, &scan(&["/bin/a", "/bin/b"]), &policy);
    assert_eq!(update.delta.new_exes, 2);
    assert_eq!(update.delta.new_edges, 1);
    assert_eq!(update.transitions.len(), 0);
    let a = stores.exes().id_by_key(&ExeKey::new("/bin/a")).unwrap();
    let b = stores.exes().id_by_key(&ExeKey::new("/bin/b")).unwrap();
    let (key, edge) = stores.markov().entry(0);
    assert_eq!(key, EdgeKey::new(a, b));
    assert_eq!(edge.state, MarkovState::Both);
    assert_eq!(edge.both_running_time, 0);
    every_edge_is_between_active_executables(&stores);

    // tick 1 at 20: only a runs
    stores.set_model_time(20);
    let update = updater.apply(&mut stores, &scan(&["/bin/a"]), &policy);
    assert_eq!(update.delta, ModelDelta::default());
    assert_eq!(update.transitions.len(), 1);
    let t = update.transitions[0];
    assert_eq!(t.key, EdgeKey::new(a, b));
    assert_eq!(t.transition.from, MarkovState::Both);
    assert_eq!(t.transition.to, MarkovState::AOnly);
    assert_eq!(t.transition.since_change, 20);
    assert_eq!(t.transition.since_left, 20);
    let ea = stores.exes().get(a).unwrap();
    let eb = stores.exes().get(b).unwrap();
    assert!(ea.running);
    assert!(!eb.running);
    assert_eq!(ea.change_time, 0);
    assert_eq!(eb.change_time, 20);
    assert_eq!(ea.total_running_time, 20);
    assert_eq!(eb.total_running_time, 0);
    assert_eq!(ea.last_seen_time, Some(20));
    assert_eq!(eb.last_seen_time, Some(0));
    // the edge left Both at 20: nothing is accounted to it
    assert_eq!(stores.markov().entry(0).1.both_running_time, 0);

    // tick 2 at 40: both run again, a third appears
    stores.set_model_time(40);
    let update = updater.apply(&mut stores, &scan(&["/bin/b", "/bin/a", "/bin/c"]), &policy);
    assert_eq!(update.delta.new_exes, 1);
    assert_eq!(update.delta.new_edges, 2);
    assert_eq!(update.transitions.len(), 1);
    assert_eq!(update.transitions[0].transition.to, MarkovState::Both);
    assert_eq!(stores.markov().len(), 3);
    assert_eq!(stores.markov().entry(0).1.both_running_time, 20);
    assert_eq!(stores.exes().get(b).unwrap().change_time, 40);
    every_edge_is_between_active_executables(&stores);

    // identifiers have not changed
    assert_eq!(stores.exes().id_by_key(&ExeKey::new("/bin/a")), Some(a));
    assert_eq!(stores.exes().id_by_key(&ExeKey::new("/bin/b")), Some(b));
}

#[test]
fn edges_of_executables_that_left_the_window_are_pruned() {
    let mut stores = Stores::new();
    let updater = ModelUpdater::new(30);
    let policy = MinSizeAdmission { minsize: 1 };
    updater.apply(&mut stores, &scan(&["/bin/a", "/bin/b", "/bin/c"]), &policy);
    assert_eq!(stores.markov().len(), 3);

    stores.set_model_time(20);
    let update = updater.apply(&mut stores, &scan(&["/bin/a"]), &policy);
    assert_eq!(update.delta.pruned_edges, 0);
    assert_eq!(update.transitions.len(), 3);
    every_edge_is_between_active_executables(&stores);

    // at 40 b and c were last seen 40 ago: outside the window of 30
    stores.set_model_time(40);
    let update = updater.apply(&mut stores, &scan(&["/bin/a"]), &policy);
    assert_eq!(update.delta.pruned_edges, 3);
    assert_eq!(update.delta.new_edges, 0);
    assert_eq!(stores.markov().len(), 0);
    assert_eq!(stores.active().exes(), vec![ExeId(0)]);
    every_edge_is_between_active_executables(&stores);

    // b comes back: it gets its edge to a again
    stores.set_model_time(60);
    let update = updater.apply(&mut stores, &scan(&["/bin/a", "/bin/b"]), &policy);
    assert_eq!(update.delta.new_edges, 1);
    assert_eq!(update.delta.new_exes, 0);
    every_edge_is_between_active_executables(&stores);
}

#[test]
fn times_stay_within_the_model_time() {
    let mut stores = Stores::new();
    let updater = ModelUpdater::new(50);
    let policy = MinSizeAdmission { minsize: 1 };
    let scans: [&[&str]; 6] = [
        &["/a"],
        &["/a", "/b"],
        &[],
        &["/b", "/c"],
        &["/a", "/b", "/c"],
        &["/c"],
    ];
    for (tick, running) in scans.iter().enumerate() {
        stores.set_model_time(20 * tick as u64);
        updater.apply(&mut stores, &scan(running), &policy);
        for i in 0..stores.exes().len() {
            let e = stores.exes().get(ExeId(i)).unwrap();
            assert!(e.total_running_time <= stores.model_time());
            assert!(e.last_seen_time.unwrap_or(0) <= stores.model_time());
        }
        every_edge_is_between_active_executables(&stores);
    }
}

#[test]
fn empty_observation_with_running_state_stops_everything() {
    let mut stores = Stores::new();
    let updater = ModelUpdater::new(1000);
    let policy = MinSizeAdmission { minsize: 1 };
    updater.apply(&mut stores, &scan(&["/a", "/b"]), &policy);
    stores.set_model_time(20);
    let update = updater.apply(&mut stores, &vec![begin(20), end(20)], &policy);
    assert_eq!(update.transitions.len(), 1);
    assert_eq!(update.transitions[0].transition.to, MarkovState::Neither);
    for i in 0..2 {
        let e = stores.exes().get(ExeId(i)).unwrap();
        assert!(!e.running);
        assert_eq!(e.change_time, 20);
        assert_eq!(e.total_running_time, 0);
    }
    // both ran throughout the window that is accounted now, but the edge
    // has left Both before the accounting
    assert_eq!(stores.markov().entry(0).1.both_running_time, 0);
}
