use orchestrator::config::{MemoryPolicy, Model, Persistence, SortStrategy};
use orchestrator::domain::{ExeId, ExeKey, MapId, MapKey, MapSegment, MarkovState};
use orchestrator::persistence::rows::{loaded, stored, SnapshotRows, StateRow};
use orchestrator::persistence::{
    from_rows, repository_for, to_rows, ChosenRepository, ExeMapRecord, ExeRecord, MapRecord,
    MarkovRecord, NoopRepository, SnapshotMeta, SqliteRepository, StateSnapshot, StoresSnapshot,
};
use orchestrator::prediction::{
    bound_score, correlation_of, edge_terms, Correlation, Prediction, SCORE_ONE, SCORE_ZERO,
};
use orchestrator::prefetch::{
    prefetcher_for, ChosenPrefetcher, NoopPrefetcher, PosixFadvisePrefetcher, PrefetchPlan,
    ReadaheadOutcome,
};
use orchestrator::stores::{EdgeKey, Stores};

#[test]
fn clamp_limits_values() {
    for a in [-1000i32, -101, -100, -99, 0, 99, 100, 101, 1000, i32::MIN, i32::MAX] {
        for b in [-1000i32, -100, 0, 100, 1000] {
            let p = MemoryPolicy { memtotal: a, memfree: b, memcached: a ^ b }.clamp();
            assert!((-100..=100).contains(&p.memtotal));
            assert!((-100..=100).contains(&p.memfree));
            assert!((-100..=100).contains(&p.memcached));
        }
    }
    let p = MemoryPolicy { memtotal: -101, memfree: 101, memcached: 37 }.clamp();
    assert_eq!(p, MemoryPolicy { memtotal: -100, memfree: 100, memcached: 37 });
}

#[test]
fn defaults_of_the_options() {
    assert_eq!(
        MemoryPolicy::default(),
        MemoryPolicy { memtotal: -10, memfree: 50, memcached: 0 }
    );
    assert_eq!(SortStrategy::default(), SortStrategy::Block);
    let m = Model::default();
    assert_eq!(m.cycle, 20);
    assert!(m.use_correlation);
    assert_eq!(m.minsize, 2_000_000);
    assert_eq!(m.active_window, 6 * 60 * 60);
    assert_eq!(m.memory, MemoryPolicy::default());
    let p = Persistence::default();
    assert_eq!(p.state_path, None);
    assert_eq!(p.autosave_interval, None);
    assert!(p.save_on_shutdown);
}

#[test]
fn stored_values_keep_their_bits() {
    assert_eq!(stored(0), 0);
    assert_eq!(stored(u64::MAX), -1);
    assert_eq!(stored(1 << 63), i64::MIN);
    assert_eq!(loaded(-1), u64::MAX);
    for v in [0u64, 1, 42, i64::MAX as u64, 1 << 63, u64::MAX - 1, u64::MAX] {
        assert_eq!(loaded(stored(v)), v);
    }
}

#[test]
fn snapshot_round_trip_through_rows() {
    let snapshot = StoresSnapshot {
        meta: SnapshotMeta {
            schema_version: u32::MAX,
            app_version: Some("1.2.3".to_string()),
            created_at: Some(1_700_000_000),
        },
        state: StateSnapshot {
            model_time: u64::MAX,
            last_accounting_time: 1 << 63,
            exes: vec![
                ExeRecord {
                    path: "/usr/bin/app".to_string(),
                    total_running_time: 42,
                    last_seen_time: Some(u64::MAX - 3),
                },
                ExeRecord { path: "/b".to_string(), total_running_time: 0, last_seen_time: None },
            ],
            maps: vec![MapRecord {
                path: "/usr/lib/libfoo.so".to_string(),
                offset: u64::MAX,
                length: 4096,
                update_time: 10,
            }],
            exe_maps: vec![ExeMapRecord {
                exe_path: "/usr/bin/app".to_string(),
                map_key: MapKey::new("/usr/lib/libfoo.so", u64::MAX, 4096),
                prob: 1.0f32.to_bits(),
            }],
            markov_edges: vec![MarkovRecord {
                exe_a: "/usr/bin/app".to_string(),
                exe_b: "/b".to_string(),
                time_to_leave: [
                    0.0f32.to_bits(),
                    3.625f32.to_bits(),
                    f32::NAN.to_bits(),
                    (-0.0f32).to_bits(),
                ],
                transition_prob: [[0.25f32.to_bits(), 0, u32::MAX, 1]; 4],
                both_running_time: u64::MAX,
            }],
        },
    };
    let rows = to_rows(&snapshot);
    assert_eq!(rows.state.as_ref().unwrap().schema_version, u32::MAX as i64);
    assert_eq!(rows.state.as_ref().unwrap().model_time, -1);
    assert_eq!(rows.exes[0].last_seen_time, Some(-4));
    assert_eq!(rows.exes[1].last_seen_time, None);
    assert_eq!(rows.maps[0].offset, -1);
    assert_eq!(rows.exe_maps[0].map_path, "/usr/lib/libfoo.so");
    assert_eq!(rows.markovs[0].both_running_time, -1);
    assert_eq!(from_rows(&rows), snapshot);
}

#[test]
fn rows_without_a_state_row_give_the_defaults() {
    let rows = SnapshotRows {
        state: None,
        exes: Vec::new(),
        maps: Vec::new(),
        exe_maps: Vec::new(),
        markovs: Vec::new(),
    };
    assert_eq!(from_rows(&rows), StoresSnapshot::empty());
    let rows = SnapshotRows {
        state: Some(StateRow {
            // only the low 32 bits of the version count
            schema_version: (1i64 << 32) + 7,
            app_version: None,
            created_at: Some(5),
            model_time: -2,
            last_accounting_time: 3,
        }),
        exes: Vec::new(),
        maps: Vec::new(),
        exe_maps: Vec::new(),
        markovs: Vec::new(),
    };
    let s = from_rows(&rows);
    assert_eq!(s.meta.schema_version, 7);
    assert_eq!(s.meta.created_at, Some(5));
    assert_eq!(s.state.model_time, u64::MAX - 1);
    assert_eq!(s.state.last_accounting_time, 3);
}

#[test]
fn sqlite_repository_names_its_file() {
    let repo = SqliteRepository::new("/var/lib/state.db".to_string());
    assert_eq!(repo.path(), "/var/lib/state.db");
}

#[test]
fn scores_are_brought_between_zero_and_one() {
    assert_eq!(bound_score(0.0f32.to_bits()), SCORE_ZERO);
    assert_eq!(bound_score(0.5f32.to_bits()), 0.5f32.to_bits());
    assert_eq!(bound_score(1.0f32.to_bits()), SCORE_ONE);
    assert_eq!(f32::from_bits(SCORE_ONE), 1.0);
    assert_eq!(bound_score(1.5f32.to_bits()), SCORE_ONE);
    assert_eq!(bound_score(f32::INFINITY.to_bits()), SCORE_ONE);
    assert_eq!(bound_score(f32::NAN.to_bits()), SCORE_ZERO);
    assert_eq!(bound_score((-0.5f32).to_bits()), SCORE_ZERO);
    assert_eq!(bound_score((-0.0f32).to_bits()), SCORE_ZERO);
    assert_eq!(bound_score(f32::NEG_INFINITY.to_bits()), SCORE_ZERO);
    // the encoding grows with the score
    let mut last = 0u32;
    for i in 1..=1000 {
        let word = (i as f32 / 1000.0).to_bits();
        assert!(word > last);
        last = word;
    }
}

#[test]
fn every_score_is_in_range_and_running_exes_score_zero() {
    let mut stores = Stores::new();
    let a = stores.ensure_exe(ExeKey::new("/a"));
    let b = stores.ensure_exe(ExeKey::new("/b"));
    let c = stores.ensure_exe(ExeKey::new("/c"));
    stores.mark_seen(b, 0);
    stores.ensure_map(MapSegment::new("/m", 0, 1, 0));
    stores.ensure_map(MapSegment::new("/n", 0, 1, 0));
    let p = Prediction::assemble(
        &stores,
        &vec![0.75f32.to_bits(), 0.9f32.to_bits(), 7.0f32.to_bits(), 0.1f32.to_bits()],
        &vec![f32::NAN.to_bits()],
    );
    assert_eq!(p.exe_scores.len(), 3);
    assert_eq!(p.exe_scores[0].exe, a);
    assert_eq!(f32::from_bits(p.exe_scores[0].score), 0.75);
    assert_eq!(p.exe_scores[1].exe, b);
    assert_eq!(p.exe_scores[1].score, SCORE_ZERO);
    assert_eq!(p.exe_scores[2].exe, c);
    assert_eq!(p.exe_scores[2].score, SCORE_ONE);
    assert_eq!(p.map_scores.len(), 2);
    assert_eq!(p.map_scores[0].map, MapId(0));
    assert_eq!(p.map_scores[0].score, SCORE_ZERO);
    assert_eq!(p.map_scores[1].score, SCORE_ZERO);
    for s in p.exe_scores.iter() {
        let v = f32::from_bits(s.score);
        assert!((0.0..=1.0).contains(&v));
    }
    let summary = p.summarize();
    assert_eq!(summary.num_exes_scored, 3);
    assert_eq!(summary.num_maps_scored, 2);
}

#[test]
fn correlation_zero_guard() {
    // the model time equals the running time of the first executable
    assert_eq!(correlation_of(true, 100, 100, 40, 40), Correlation::Zero);
    assert_eq!(correlation_of(true, 100, 40, 100, 40), Correlation::Zero);
    assert_eq!(correlation_of(true, 0, 0, 0, 0), Correlation::Zero);
    assert_eq!(correlation_of(true, 100, 0, 40, 0), Correlation::Zero);
    assert_eq!(correlation_of(true, 100, 40, 0, 0), Correlation::Zero);
    assert_eq!(
        correlation_of(true, 100, 40, 60, 30),
        Correlation::From { model_time: 100, a_time: 40, b_time: 60, both_time: 30 }
    );
    assert_eq!(correlation_of(false, 100, 100, 40, 40), Correlation::Unused);
}

#[test]
fn edge_terms_are_for_the_executables_that_do_not_run() {
    let mut stores = Stores::new();
    let a = stores.ensure_exe(ExeKey::new("/a"));
    let b = stores.ensure_exe(ExeKey::new("/b"));
    let c = stores.ensure_exe(ExeKey::new("/c"));
    stores.set_model_time(100);
    stores.mark_seen(a, 100);
    stores.restore_exe(a, 40, Some(100));
    stores.restore_exe(b, 60, None);
    stores.ensure_markov_edge(a, b, 0, MarkovState::AOnly);
    stores.ensure_markov_edge(b, c, 0, MarkovState::Neither);
    let mut tp = [[0u32; 4]; 4];
    tp[1] = [10, 11, 12, 13];
    tp[0] = [20, 21, 22, 23];
    stores.restore_edge(EdgeKey::new(a, b), [1, 2, 3, 4], tp, 30);
    stores.restore_edge(EdgeKey::new(b, c), [5, 6, 7, 8], tp, 0);

    let terms = edge_terms(&stores, true);
    assert_eq!(terms.len(), 3);
    // a runs, b does not: one term, for b
    assert_eq!(terms[0].exe, b);
    assert_eq!(terms[0].key, EdgeKey(a, b));
    assert_eq!(terms[0].state, MarkovState::AOnly);
    assert_eq!(terms[0].target, MarkovState::BOnly);
    assert_eq!(terms[0].time_to_leave, 2);
    assert_eq!(terms[0].to_target, 12);
    assert_eq!(terms[0].to_both, 13);
    assert_eq!(
        terms[0].correlation,
        Correlation::From { model_time: 100, a_time: 40, b_time: 60, both_time: 30 }
    );
    // neither b nor c runs: a term for each
    assert_eq!(terms[1].exe, b);
    assert_eq!(terms[1].target, MarkovState::AOnly);
    assert_eq!(terms[1].state, MarkovState::Neither);
    assert_eq!(terms[1].time_to_leave, 5);
    assert_eq!(terms[1].to_target, 21);
    assert_eq!(terms[1].to_both, 23);
    // c has never run: the correlation is zero
    assert_eq!(terms[1].correlation, Correlation::Zero);
    assert_eq!(terms[2].exe, c);
    assert_eq!(terms[2].target, MarkovState::BOnly);
    assert_eq!(terms[2].to_target, 22);
    assert!(edge_terms(&stores, false).iter().all(|t| t.correlation == Correlation::Unused));
    assert_eq!(stores.exes().get(ExeId(0)).unwrap().total_running_time, 40);
}

#[test]
fn prefetcher_requests_and_report() {
    let mut stores = Stores::new();
    let a = stores.ensure_map(MapSegment::new("/a", 4096, 100, 0));
    let b = stores.ensure_map(MapSegment::new("/b", u64::MAX, 1 << 63, 0));
    let plan = PrefetchPlan { maps: vec![b, MapId(9), a], total_bytes: 777, budget_bytes: 1000 };
    let prefetcher = PosixFadvisePrefetcher::new(4);
    assert_eq!(prefetcher.limit(), 4);
    let requests = prefetcher.requests(&plan, &stores);
    assert_eq!(requests.len(), 2);
    assert_eq!(requests[0].key, MapKey::new("/b", u64::MAX, 1 << 63));
    assert_eq!(requests[0].offset, -1);
    assert_eq!(requests[0].length, i64::MIN);
    assert_eq!(requests[1].key, MapKey::new("/a", 4096, 100));
    assert_eq!(requests[1].offset, 4096);
    assert_eq!(requests[1].length, 100);

    let outcomes = vec![
        ReadaheadOutcome::Failed(MapKey::new("/b", u64::MAX, 1 << 63)),
        ReadaheadOutcome::Advised,
        ReadaheadOutcome::Lost,
        ReadaheadOutcome::Advised,
        ReadaheadOutcome::Failed(MapKey::new("/c", 0, 1)),
    ];
    let report = prefetcher.report(&plan, &outcomes);
    assert_eq!(report.num_maps, 2);
    assert_eq!(report.total_bytes, 777);
    assert_eq!(
        report.failures,
        vec![MapKey::new("/b", u64::MAX, 1 << 63), MapKey::new("/c", 0, 1)]
    );
}

#[test]
fn the_options_choose_prefetcher_and_repository() {
    assert_eq!(prefetcher_for(0), ChosenPrefetcher::Noop(NoopPrefetcher));
    assert_eq!(prefetcher_for(1), ChosenPrefetcher::Fadvise(PosixFadvisePrefetcher::new(1)));
    match prefetcher_for(u32::MAX) {
        ChosenPrefetcher::Fadvise(p) => assert_eq!(p.limit(), u32::MAX as usize),
        ChosenPrefetcher::Noop(_) => panic!("a concurrency above zero prefetches"),
    }
    assert_eq!(repository_for(&None), ChosenRepository::Noop(NoopRepository));
    assert_eq!(
        repository_for(&Some("/a.db".to_string())),
        ChosenRepository::Sqlite(SqliteRepository::new("/a.db".to_string()))
    );
}
