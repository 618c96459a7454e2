use orchestrator::config::{Config, MemoryPolicy, Model, Persistence, SortStrategy, System};
use orchestrator::domain::{ExeId, ExeKey, MapKey, MapSegment, MarkovState, MemStat};
use orchestrator::engine::{
    autosave_due, sleep_after_tick, snapshot_from_stores, stores_from_snapshot, PreloadEngine,
    ReloadBundle, ScanRequest,
};
use orchestrator::error::Error;
use orchestrator::observation::{MinSizeAdmission, ModelDelta, ObservationEvent};
use orchestrator::persistence::{
    ExeMapRecord, ExeRecord, MapRecord, MarkovRecord, NoopRepository, SnapshotMeta,
    StateSnapshot, StoresSnapshot, SNAPSHOT_SCHEMA_VERSION,
};
use orchestrator::prediction::{MapScore, Prediction, PredictionSummary, SCORE_ONE};
use orchestrator::prefetch::{
    GreedyPrefetchPlanner, NoopPrefetcher, PosixFadvisePrefetcher, PrefetchReport,
};
use orchestrator::stores::{EdgeKey, Stores};
use orchestrator::updater::ModelUpdater;

fn config(doscan: bool, dopredict: bool, state_path: Option<&str>) -> Config {
    Config {
        system: System {
            doscan,
            dopredict,
            prefetch_concurrency: 2,
            sortstrategy: SortStrategy::Unsorted,
            exeprefix: Vec::new(),
            autosave: 3600,
        },
        model: Model {
            memory: MemoryPolicy { memtotal: 0, memfree: 100, memcached: 0 },
            ..Model::default()
        },
        persistence: Persistence {
            state_path: state_path.map(|p| p.to_string()),
            autosave_interval: None,
            save_on_shutdown: true,
        },
    }
}

fn engine(config: Config) -> PreloadEngine<MinSizeAdmission> {
    let planner = GreedyPrefetchPlanner::new(&config);
    let updater = ModelUpdater::new(config.model.active_window);
    let admission = MinSizeAdmission { minsize: config.model.minsize };
    PreloadEngine::new(config, admission, updater, planner)
}

fn big_scan(running: &[&str], mem: MemStat) -> Vec<ObservationEvent> {
    let mut events = vec![
        ObservationEvent::ObsBegin { time: 0, scan_id: 0 },
        ObservationEvent::MemStat { mem },
    ];
    for path in running {
        events.push(ObservationEvent::ExeSeen { path: path.to_string(), pid: 7 });
        events.push(ObservationEvent::MapSeen {
            exe_path: path.to_string(),
            map: MapSegment::new(&format!("{}.so", path), 0, 3_000_000, 0),
        });
    }
    events.push(ObservationEvent::ObsEnd { time: 0, scan_id: 0, warnings: Vec::new() });
    events
}

#[test]
fn empty_state_one_tick_no_persist() {
    let mut engine = engine(config(true, true, None));
    let request = engine.begin_tick();
    assert_eq!(request, ScanRequest { scan: true, now: 0, scan_id: 1 });

    let mem = MemStat { total: 0, free: 0, cached: 0, pagein: 0, pageout: 0 };
    let observation = vec![
        ObservationEvent::ObsBegin { time: 0, scan_id: 1 },
        ObservationEvent::MemStat { mem },
        ObservationEvent::ObsEnd { time: 0, scan_id: 1, warnings: Vec::new() },
    ];
    let observed = engine.observe(&observation);
    assert_eq!(observed.memstat, Some(mem));
    assert_eq!(observed.delta, ModelDelta::default());
    assert!(observed.transitions.is_empty());

    let prediction = Prediction::assemble(engine.stores(), &Vec::new(), &Vec::new());
    let plan = engine.plan(&prediction, observed.memstat);
    assert!(plan.maps.is_empty());
    assert_eq!(plan.total_bytes, 0);
    assert_eq!(plan.budget_bytes, 0);

    let prefetcher = PosixFadvisePrefetcher::new(2);
    let requests = prefetcher.requests(&plan, engine.stores());
    assert!(requests.is_empty());
    let prefetch = prefetcher.report(&plan, &Vec::new());
    assert_eq!(prefetch.num_maps, 0);
    assert_eq!(prefetch.total_bytes, 0);

    let report = engine.finish_tick(observed, prediction.summarize(), prefetch);
    assert_eq!(report.scan_id, 1);
    assert_eq!(report.model_delta, ModelDelta::default());
    assert_eq!(report.memstat, Some(mem));
    assert_eq!(report.prefetch.num_maps, 0);
    assert_eq!(report.prefetch.total_bytes, 0);
    assert_eq!(
        report.prediction,
        PredictionSummary { num_exes_scored: 0, num_maps_scored: 0 }
    );
    assert_eq!(engine.stores().model_time(), 20);
    assert_eq!(engine.stores().exes().len(), 0);
    assert_eq!(engine.stores().maps().len(), 0);
    assert_eq!(engine.stores().markov().len(), 0);
    assert_eq!(engine.scan_id(), 1);
}

#[test]
fn a_tick_without_scanning_leaves_the_stores() {
    let mut engine = engine(config(false, false, None));
    let request = engine.begin_tick();
    assert!(!request.scan);
    let mem = MemStat { total: 100, free: 100, cached: 0, pagein: 0, pageout: 0 };
    let observed = engine.observe(&big_scan(&["/bin/a"], mem));
    assert_eq!(observed.delta, ModelDelta::default());
    assert_eq!(observed.memstat, Some(mem));
    assert_eq!(engine.stores().exes().len(), 0);
    assert!(!engine.predicts());
    let mut prediction = Prediction::new();
    prediction.map_scores.push(MapScore { map: orchestrator::domain::MapId(0), score: SCORE_ONE });
    let plan = engine.plan(&prediction, observed.memstat);
    assert!(plan.maps.is_empty());
    assert_eq!(plan.budget_bytes, 0);
    let report = engine.finish_tick(observed, PredictionSummary::default(), PrefetchReport::new());
    assert_eq!(report.scan_id, 1);
    assert_eq!(engine.stores().model_time(), 20);
}

#[test]
fn a_full_tick_plans_the_maps_of_what_was_seen() {
    let mut engine = engine(config(true, true, None));
    engine.begin_tick();
    let mem = MemStat { total: 0, free: 10_000, cached: 0, pagein: 0, pageout: 0 };
    let observed = engine.observe(&big_scan(&["/bin/a", "/bin/b"], mem));
    assert_eq!(
        observed.delta,
        ModelDelta { new_exes: 2, new_maps: 2, new_edges: 1, pruned_edges: 0 }
    );
    let prediction = Prediction::assemble(
        engine.stores(),
        &vec![SCORE_ONE, SCORE_ONE],
        &vec![0.25f32.to_bits(), 0.5f32.to_bits()],
    );
    // both run: their scores are zero whatever was handed in
    assert!(prediction.exe_scores.iter().all(|s| s.score == 0));
    assert!(engine.unresolved_files(&prediction, &mem).is_empty());
    let plan = engine.plan(&prediction, observed.memstat);
    assert_eq!(plan.maps, vec![orchestrator::domain::MapId(1), orchestrator::domain::MapId(0)]);
    assert_eq!(plan.total_bytes, 6_000_000);
    assert_eq!(plan.budget_bytes, 10_000 * 1024);
    // without memory figures nothing is planned
    assert!(engine.plan(&prediction, None).maps.is_empty());

    let prefetcher = PosixFadvisePrefetcher::new(0);
    assert_eq!(prefetcher.limit(), 1);
    let requests = prefetcher.requests(&plan, engine.stores());
    assert_eq!(requests.len(), 2);
    assert_eq!(requests[0].key, MapKey::new("/bin/b.so", 0, 3_000_000));
    assert_eq!(requests[0].offset, 0);
    assert_eq!(requests[0].length, 3_000_000);

    let report = engine.finish_tick(observed, prediction.summarize(), PrefetchReport::new());
    assert_eq!(report.prediction.num_exes_scored, 2);
    assert_eq!(report.prediction.num_maps_scored, 2);
    assert_eq!(engine.stores().model_time(), 20);
    assert!(engine.set_edge_statistics(EdgeKey::new(ExeId(0), ExeId(1)), [7; 4], [[8; 4]; 4]));
    assert_eq!(engine.stores().markov().entry(0).1.time_to_leave, [7; 4]);
}

#[test]
fn scan_id_and_model_time_stop_at_the_largest_value() {
    let mut config = config(false, false, None);
    config.model.cycle = u64::MAX - 5;
    let mut engine = engine(config);
    for expected in [u64::MAX - 5, u64::MAX, u64::MAX] {
        engine.begin_tick();
        let observed = engine.observe(&Vec::new());
        engine.finish_tick(observed, PredictionSummary::default(), PrefetchReport::default());
        assert_eq!(engine.stores().model_time(), expected);
    }
    assert_eq!(engine.scan_id(), 3);
}

#[test]
fn reload_mid_run_preserves_state_path() {
    let mut engine = engine(config(true, true, Some("/a.db")));
    engine.begin_tick();
    let mem = MemStat { total: 0, free: 100, cached: 0, pagein: 0, pageout: 0 };
    engine.observe(&big_scan(&["/bin/a"], mem));

    let mut requested = config(false, true, Some("/b.db"));
    requested.model.cycle = 5;
    requested.model.minsize = 1;
    requested.persistence.save_on_shutdown = false;
    requested.persistence.autosave_interval = Some(60);
    let bundle = ReloadBundle {
        planner: GreedyPrefetchPlanner::new(&requested),
        updater: ModelUpdater::new(99),
        admission: MinSizeAdmission { minsize: 1 },
        config: requested,
    };
    let refused = engine.apply_reload(bundle);
    assert!(refused);
    assert_eq!(engine.config().persistence.state_path, Some("/a.db".to_string()));
    // the rest of the bundle is adopted
    assert_eq!(engine.config().model.cycle, 5);
    assert!(!engine.config().system.doscan);
    assert!(!engine.saves_on_shutdown());
    assert!(engine.autosave_due(60));
    assert!(!engine.autosave_due(59));
    assert_eq!(engine.sleep_after_tick(1_000_000_000), Some(4_000_000_000));
    // the stores and the scan number stay
    assert_eq!(engine.stores().exes().len(), 1);
    assert_eq!(engine.scan_id(), 1);
}

#[test]
fn reload_with_the_same_state_path_is_not_refused() {
    let mut engine = engine(config(true, true, Some("/a.db")));
    let requested = config(true, false, Some("/a.db"));
    let bundle = ReloadBundle {
        planner: GreedyPrefetchPlanner::new(&requested),
        updater: ModelUpdater::new(1),
        admission: MinSizeAdmission { minsize: 1 },
        config: requested,
    };
    assert!(!engine.apply_reload(bundle));
    assert!(!engine.predicts());

    let mut engine = self::engine(config(true, true, None));
    let requested = config(true, true, Some("/b.db"));
    let bundle = ReloadBundle {
        planner: GreedyPrefetchPlanner::new(&requested),
        updater: ModelUpdater::new(1),
        admission: MinSizeAdmission { minsize: 1 },
        config: requested,
    };
    assert!(engine.apply_reload(bundle));
    assert_eq!(engine.config().persistence.state_path, None);
}

#[test]
fn autosave_and_sleep_decisions() {
    assert!(!autosave_due(0, 1_000_000));
    assert!(!autosave_due(3600, 3599));
    assert!(autosave_due(3600, 3600));
    assert!(autosave_due(1, u64::MAX));
    assert_eq!(sleep_after_tick(20, 0), Some(20_000_000_000));
    assert_eq!(sleep_after_tick(20, 19_999_999_999), Some(1));
    assert_eq!(sleep_after_tick(20, 20_000_000_000), None);
    assert_eq!(sleep_after_tick(20, u128::MAX), None);
    assert_eq!(sleep_after_tick(0, 0), None);
    assert_eq!(
        sleep_after_tick(u64::MAX, 1),
        Some(u64::MAX as u128 * 1_000_000_000 - 1)
    );
    let c = config(true, true, None);
    assert_eq!(c.autosave_secs(), 3600);
    let mut c = config(true, true, None);
    c.persistence.autosave_interval = Some(0);
    assert_eq!(c.autosave_secs(), 0);
}

fn snapshot() -> StoresSnapshot {
    StoresSnapshot {
        meta: SnapshotMeta {
            schema_version: SNAPSHOT_SCHEMA_VERSION,
            app_version: Some("test".to_string()),
            created_at: None,
        },
        state: StateSnapshot {
            model_time: 100,
            last_accounting_time: 80,
            exes: vec![
                ExeRecord {
                    path: "/usr/bin/app".to_string(),
                    total_running_time: 42,
                    last_seen_time: Some(90),
                },
                ExeRecord {
                    path: "/usr/bin/app2".to_string(),
                    total_running_time: 7,
                    last_seen_time: Some(95),
                },
                ExeRecord {
                    path: "/usr/bin/old".to_string(),
                    total_running_time: 1,
                    last_seen_time: Some(10),
                },
                ExeRecord {
                    path: "/usr/bin/never".to_string(),
                    total_running_time: 0,
                    last_seen_time: None,
                },
            ],
            maps: vec![MapRecord {
                path: "/usr/lib/libfoo.so".to_string(),
                offset: 0,
                length: 4096,
                update_time: 10,
            }],
            exe_maps: vec![ExeMapRecord {
                exe_path: "/usr/bin/app".to_string(),
                map_key: MapKey::new("/usr/lib/libfoo.so", 0, 4096),
                prob: SCORE_ONE,
            }],
            markov_edges: vec![
                MarkovRecord {
                    exe_a: "/usr/bin/app2".to_string(),
                    exe_b: "/usr/bin/app".to_string(),
                    time_to_leave: [1, 2, 3, 4],
                    transition_prob: [[9, 8, 7, 6]; 4],
                    both_running_time: 5,
                },
                MarkovRecord {
                    exe_a: "/usr/bin/app".to_string(),
                    exe_b: "/usr/bin/old".to_string(),
                    time_to_leave: [0; 4],
                    transition_prob: [[0; 4]; 4],
                    both_running_time: 0,
                },
            ],
        },
    }
}

#[test]
fn stores_are_rebuilt_from_a_snapshot() {
    let stores = stores_from_snapshot(snapshot(), 20).unwrap();
    assert_eq!(stores.model_time(), 100);
    assert_eq!(stores.last_accounting_time(), 80);
    assert_eq!(stores.exes().len(), 4);
    let app = stores.exes().id_by_key(&ExeKey::new("/usr/bin/app")).unwrap();
    let app2 = stores.exes().id_by_key(&ExeKey::new("/usr/bin/app2")).unwrap();
    let old = stores.exes().id_by_key(&ExeKey::new("/usr/bin/old")).unwrap();
    let rec = stores.exes().get(app).unwrap();
    assert_eq!(rec.total_running_time, 42);
    assert_eq!(rec.last_seen_time, Some(90));
    assert!(!rec.running);
    let map = stores.maps().id_by_key(&MapKey::new("/usr/lib/libfoo.so", 0, 4096)).unwrap();
    assert_eq!(stores.maps().get(map).unwrap().update_time, 10);
    assert_eq!(stores.exe_maps().maps_for_exe(app), vec![map]);

    // seen within 20 of the model time: active as of the model time
    assert_eq!(stores.active().last_seen(app), Some(100));
    assert_eq!(stores.active().last_seen(app2), Some(100));
    assert_eq!(stores.active().last_seen(old), None);
    assert_eq!(stores.active().len(), 2);

    // the edge to the executable that is not active is dropped
    assert_eq!(stores.markov().len(), 1);
    let (key, edge) = stores.markov().entry(0);
    assert_eq!(key, EdgeKey::new(app, app2));
    assert_eq!(edge.state, MarkovState::Neither);
    assert_eq!(edge.last_change_time, 100);
    assert_eq!(edge.state_last_left, [100; 4]);
    assert_eq!(edge.time_to_leave, [1, 2, 3, 4]);
    assert_eq!(edge.transition_prob, [[9, 8, 7, 6]; 4]);
    assert_eq!(edge.both_running_time, 5);
}

#[test]
fn snapshot_with_a_missing_exe_is_rejected() {
    let mut s = snapshot();
    s.state.exe_maps.push(ExeMapRecord {
        exe_path: "/usr/bin/ghost".to_string(),
        map_key: MapKey::new("/usr/lib/libfoo.so", 0, 4096),
        prob: SCORE_ONE,
    });
    assert_eq!(
        stores_from_snapshot(s, 20).err(),
        Some(Error::ExeMissing("/usr/bin/ghost".to_string()))
    );

    let mut s = snapshot();
    s.state.markov_edges[1].exe_b = "/usr/bin/ghost".to_string();
    assert_eq!(
        stores_from_snapshot(s, 20).err(),
        Some(Error::ExeMissing("/usr/bin/ghost".to_string()))
    );
    let mut s = snapshot();
    s.state.markov_edges[0].exe_a = "/usr/bin/first".to_string();
    s.state.markov_edges[0].exe_b = "/usr/bin/second".to_string();
    assert_eq!(
        stores_from_snapshot(s, 20).err(),
        Some(Error::ExeMissing("/usr/bin/first".to_string()))
    );
}

#[test]
fn snapshot_with_a_missing_map_is_rejected() {
    let mut s = snapshot();
    s.state.exe_maps[0].map_key = MapKey::new("/usr/lib/libfoo.so", 0, 4097);
    assert_eq!(
        stores_from_snapshot(s, 20).err(),
        Some(Error::MapMissing("/usr/lib/libfoo.so".to_string()))
    );
    // the incidence relation is looked at before the edges
    let mut s = snapshot();
    s.state.exe_maps[0].map_key = MapKey::new("/nowhere", 0, 1);
    s.state.markov_edges[0].exe_a = "/usr/bin/ghost".to_string();
    assert_eq!(
        stores_from_snapshot(s, 20).err(),
        Some(Error::MapMissing("/nowhere".to_string()))
    );
}

#[test]
fn snapshot_of_rebuilt_stores_holds_the_same_records() {
    let given = snapshot();
    let stores = stores_from_snapshot(snapshot(), 1000).unwrap();
    let taken = snapshot_from_stores(&stores, Some(1_700_000_000));
    assert_eq!(taken.meta.schema_version, 1);
    assert_eq!(taken.meta.app_version, None);
    assert_eq!(taken.meta.created_at, Some(1_700_000_000));
    assert_eq!(taken.state.model_time, 100);
    assert_eq!(taken.state.last_accounting_time, 80);
    assert_eq!(taken.state.exes, given.state.exes);
    assert_eq!(taken.state.maps, given.state.maps);
    assert_eq!(taken.state.exe_maps, given.state.exe_maps);
    // the edges come back under their canonical order
    assert_eq!(taken.state.markov_edges.len(), 2);
    assert_eq!(taken.state.markov_edges[1], given.state.markov_edges[1]);
    assert_eq!(taken.state.markov_edges[0].exe_a, "/usr/bin/app");
    assert_eq!(taken.state.markov_edges[0].exe_b, "/usr/bin/app2");
    assert_eq!(taken.state.markov_edges[0].time_to_leave, [1, 2, 3, 4]);
    assert_eq!(taken.state.markov_edges[0].both_running_time, 5);
}

#[test]
fn engine_loads_and_saves() {
    let config0 = config(true, true, None);
    let planner = GreedyPrefetchPlanner::new(&config0);
    let loaded = PreloadEngine::load(
        config0,
        MinSizeAdmission { minsize: 1 },
        ModelUpdater::new(21_600),
        planner,
        snapshot(),
    );
    let engine = loaded.ok().unwrap();
    assert_eq!(engine.scan_id(), 0);
    assert_eq!(engine.stores().exes().len(), 4);
    // with the default window of six hours everything seen is active
    assert_eq!(engine.stores().active().len(), 3);
    assert_eq!(engine.stores().markov().len(), 2);
    let saved = engine.save(None);
    assert_eq!(saved.state.exes.len(), 4);
    assert_eq!(saved.state.markov_edges.len(), 2);
    assert_eq!(saved.meta.created_at, None);

    let config1 = config(true, true, None);
    let planner = GreedyPrefetchPlanner::new(&config1);
    let mut bad = snapshot();
    bad.state.exes.clear();
    let failed = PreloadEngine::load(
        config1,
        MinSizeAdmission { minsize: 1 },
        ModelUpdater::new(21_600),
        planner,
        bad,
    );
    assert_eq!(failed.err(), Some(Error::ExeMissing("/usr/bin/app".to_string())));
}

#[test]
fn noop_repository_and_prefetcher() {
    let repo = NoopRepository::default();
    let loaded = repo.load();
    assert_eq!(loaded, StoresSnapshot::empty());
    assert_eq!(loaded.meta.schema_version, 1);
    assert_eq!(loaded.state.model_time, 0);
    assert!(loaded.state.exes.is_empty());
    repo.save(&snapshot());
    assert_eq!(repo.load(), StoresSnapshot::empty());
    let stores = stores_from_snapshot(loaded, 10).unwrap();
    assert_eq!(stores.exes().len(), 0);

    let plan = orchestrator::prefetch::PrefetchPlan {
        maps: vec![orchestrator::domain::MapId(0)],
        total_bytes: 10,
        budget_bytes: 10,
    };
    let report = NoopPrefetcher.execute(&plan, &Stores::new());
    assert_eq!(report.num_maps, 0);
    assert_eq!(report.total_bytes, 0);
    assert!(report.failures.is_empty());
}

#[test]
fn exemap_prob_always_1() {
    let mut stores = Stores::new();
    let exe = stores.ensure_exe(ExeKey::new("test"));
    let map = stores.ensure_map(MapSegment::new("test", 0, 0, 0));
    stores.attach_map(exe, map);
    let taken = snapshot_from_stores(&stores, None);
    assert_eq!(taken.state.exe_maps.len(), 1);
    assert_eq!(f32::from_bits(taken.state.exe_maps[0].prob), 1.0);
}
