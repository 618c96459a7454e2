use orchestrator::domain::{
    Exe, ExeId, ExeKey, MapId, MapKey, MapSegment, MarkovEdge, MarkovState, Transition,
};
use orchestrator::stores::{
    ActiveSet, EdgeKey, ExeMapIndex, ExeStore, MapStore, MarkovGraph, Stores,
};

#[test]
fn edge_key_does_not_depend_on_the_order() {
    for a in 0..5usize {
        for b in 0..5usize {
            let k = EdgeKey::new(ExeId(a), ExeId(b));
            assert_eq!(k, EdgeKey::new(ExeId(b), ExeId(a)));
            assert!(k.a().0 <= k.b().0);
            assert!(k.a() == ExeId(a) || k.a() == ExeId(b));
            assert!(k.b() == ExeId(a) || k.b() == ExeId(b));
        }
    }
    let k = EdgeKey::new(ExeId(7), ExeId(3));
    assert_eq!(k.a(), ExeId(3));
    assert_eq!(k.b(), ExeId(7));
}

#[test]
fn markov_state_from_running_and_index() {
    assert_eq!(MarkovState::from_running(false, false), MarkovState::Neither);
    assert_eq!(MarkovState::from_running(true, false), MarkovState::AOnly);
    assert_eq!(MarkovState::from_running(false, true), MarkovState::BOnly);
    assert_eq!(MarkovState::from_running(true, true), MarkovState::Both);
    assert_eq!(MarkovState::Neither.index(), 0);
    assert_eq!(MarkovState::AOnly.index(), 1);
    assert_eq!(MarkovState::BOnly.index(), 2);
    assert_eq!(MarkovState::Both.index(), 3);
}

#[test]
fn new_edge_has_learnt_nothing() {
    let e = MarkovEdge::new(MarkovState::AOnly, 40);
    assert_eq!(e.state, MarkovState::AOnly);
    assert_eq!(e.last_change_time, 40);
    assert_eq!(e.state_last_left, [40; 4]);
    assert_eq!(e.time_to_leave, [0; 4]);
    assert_eq!(e.transition_prob, [[0; 4]; 4]);
    assert_eq!(e.both_running_time, 0);
}

#[test]
fn markov_dwell_update() {
    // both executables ran for exactly one cycle of 20 seconds
    let mut e = MarkovEdge::new(MarkovState::Both, 0);
    let t = e.transition(MarkovState::AOnly, 20);
    assert_eq!(
        t,
        Some(Transition {
            from: MarkovState::Both,
            to: MarkovState::AOnly,
            since_left: 20,
            since_change: 20,
        })
    );
    assert_eq!(e.state, MarkovState::AOnly);
    assert_eq!(e.last_change_time, 20);
    assert_eq!(e.state_last_left, [0, 0, 0, 20]);
    // the statistics are left to the caller
    assert_eq!(e.time_to_leave, [0; 4]);

    // the decayed mean that the report asks for, with decay 0.01
    let t = t.unwrap();
    let mix = (-0.01f32 * t.since_left as f32).exp();
    let dwell = mix * 0.0 + (1.0 - mix) * t.since_change as f32;
    assert!((dwell - 3.625).abs() < 0.001);
}

#[test]
fn transition_to_the_same_state_changes_nothing() {
    let mut e = MarkovEdge::new(MarkovState::Neither, 5);
    assert_eq!(e.transition(MarkovState::Neither, 50), None);
    assert_eq!(e.last_change_time, 5);
    assert_eq!(e.state_last_left, [5; 4]);
}

#[test]
fn transition_spans_do_not_go_below_zero() {
    let mut e = MarkovEdge::new(MarkovState::AOnly, 100);
    let t = e.transition(MarkovState::Both, 60).unwrap();
    assert_eq!(t.since_left, 0);
    assert_eq!(t.since_change, 0);
    assert_eq!(e.state_last_left, [100, 60, 100, 100]);
    let t = e.transition(MarkovState::AOnly, 90).unwrap();
    assert_eq!(t.from, MarkovState::Both);
    assert_eq!(t.since_left, 0);
    assert_eq!(t.since_change, 30);
    let t = e.transition(MarkovState::Neither, 95).unwrap();
    // AOnly was last left at 60
    assert_eq!(t.since_left, 35);
    assert_eq!(t.since_change, 5);
}

#[test]
fn edge_accounts_only_in_both() {
    let mut e = MarkovEdge::new(MarkovState::AOnly, 0);
    e.account(20);
    assert_eq!(e.both_running_time, 0);
    let mut e = MarkovEdge::new(MarkovState::Both, 0);
    e.account(20);
    e.account(5);
    assert_eq!(e.both_running_time, 25);
    e.account(u64::MAX);
    assert_eq!(e.both_running_time, u64::MAX);
}

#[test]
fn keys_and_segments() {
    let k = ExeKey::new("/usr/bin/vim");
    assert_eq!(k.path(), "/usr/bin/vim");
    assert!(k.same_as(&ExeKey::new("/usr/bin/vim")));
    assert!(!k.same_as(&ExeKey::new("/usr/bin/vi")));
    let m = MapSegment::new("/lib/libc.so", 4096, 8192, 17);
    assert_eq!(m.path, "/lib/libc.so");
    assert_eq!(m.offset, 4096);
    assert_eq!(m.length, 8192);
    assert_eq!(m.update_time, 17);
    assert_eq!(m.key(), MapKey::new("/lib/libc.so", 4096, 8192));
    assert!(m.has_key(&MapKey::new("/lib/libc.so", 4096, 8192)));
    assert!(!m.has_key(&MapKey::new("/lib/libc.so", 0, 8192)));
    assert!(!MapKey::new("/a", 1, 2).same_as(&MapKey::new("/a", 1, 3)));
    let e = Exe::new(ExeKey::new("/bin/sh"));
    assert_eq!(e.total_running_time, 0);
    assert_eq!(e.last_seen_time, None);
    assert!(!e.running);
    assert_eq!(e.change_time, 0);
    assert_eq!(e.duplicate(), e);
}

#[test]
fn active_set_update_prune_exes() {
    let mut set = ActiveSet::new();
    assert_eq!(set.len(), 0);
    set.update(&vec![ExeId(1), ExeId(2)], 10);
    set.update(&vec![ExeId(2), ExeId(3), ExeId(3)], 30);
    assert_eq!(set.len(), 3);
    assert_eq!(set.last_seen(ExeId(1)), Some(10));
    assert_eq!(set.last_seen(ExeId(2)), Some(30));
    assert_eq!(set.last_seen(ExeId(3)), Some(30));
    assert_eq!(set.last_seen(ExeId(4)), None);
    assert!(set.contains(ExeId(1)));

    // 35 - 10 = 25 > 20: stale;  35 - 30 = 5: fresh
    let removed = set.prune(35, 20);
    assert_eq!(removed, vec![ExeId(1)]);
    let mut exes = set.exes();
    exes.sort_by_key(|e| e.0);
    assert_eq!(exes, vec![ExeId(2), ExeId(3)]);

    // exactly at the window an executable stays
    assert_eq!(set.prune(50, 20), Vec::<ExeId>::new());
    assert_eq!(set.prune(51, 20).len(), 2);
    assert_eq!(set.len(), 0);
}

#[test]
fn active_set_prune_with_a_clock_behind() {
    let mut set = ActiveSet::new();
    set.touch(ExeId(0), 100);
    // seen "in the future": the age is zero
    assert_eq!(set.prune(10, 0), Vec::<ExeId>::new());
    assert!(set.contains(ExeId(0)));
}

#[test]
fn exe_map_index_is_symmetric() {
    let mut index = ExeMapIndex::new();
    index.attach(ExeId(0), MapId(1));
    index.attach(ExeId(0), MapId(2));
    index.attach(ExeId(1), MapId(2));
    index.attach(ExeId(0), MapId(1));
    assert_eq!(index.len(), 3);
    assert_eq!(index.maps_for_exe(ExeId(0)), vec![MapId(1), MapId(2)]);
    assert_eq!(index.maps_for_exe(ExeId(1)), vec![MapId(2)]);
    assert_eq!(index.maps_for_exe(ExeId(5)), Vec::<MapId>::new());
    assert_eq!(index.exes_for_map(MapId(2)), vec![ExeId(0), ExeId(1)]);
    assert_eq!(index.exes_for_map(MapId(1)), vec![ExeId(0)]);
    for e in 0..3usize {
        for m in 0..4usize {
            let forth = index.maps_for_exe(ExeId(e)).contains(&MapId(m));
            let back = index.exes_for_map(MapId(m)).contains(&ExeId(e));
            assert_eq!(forth, back);
            assert_eq!(forth, index.contains(ExeId(e), MapId(m)));
        }
    }
    index.remove_exe(ExeId(0));
    assert_eq!(index.len(), 1);
    assert_eq!(index.pair(0), (ExeId(1), MapId(2)));
    assert_eq!(index.exes_for_map(MapId(1)), Vec::<ExeId>::new());
    assert_eq!(index.exes_for_map(MapId(2)), vec![ExeId(1)]);
}

#[test]
fn markov_graph_holds_one_edge_for_a_pair() {
    let mut g = MarkovGraph::new();
    assert!(g.ensure_edge(ExeId(2), ExeId(1), 10, MarkovState::Both));
    assert!(!g.ensure_edge(ExeId(1), ExeId(2), 99, MarkovState::Neither));
    assert!(!g.ensure_edge(ExeId(2), ExeId(1), 99, MarkovState::Neither));
    assert_eq!(g.len(), 1);
    // an edge from an executable to itself is rejected
    assert!(!g.ensure_edge(ExeId(3), ExeId(3), 10, MarkovState::Both));
    assert!(!g.ensure_edge(ExeId(1), ExeId(1), 10, MarkovState::Both));
    assert_eq!(g.len(), 1);
    assert_eq!(g.position(EdgeKey(ExeId(3), ExeId(3))), None);
    let (key, edge) = g.entry(0);
    assert_eq!(key, EdgeKey::new(ExeId(1), ExeId(2)));
    assert_eq!(edge.state, MarkovState::Both);
    assert_eq!(edge.last_change_time, 10);
    assert_eq!(g.position(EdgeKey(ExeId(1), ExeId(2))), Some(0));
    // the other ordering is never held
    assert_eq!(g.position(EdgeKey(ExeId(2), ExeId(1))), None);
    assert!(g.get(EdgeKey(ExeId(2), ExeId(1))).is_none());
    assert!(g.get(EdgeKey(ExeId(1), ExeId(2))).is_some());
}

#[test]
fn markov_graph_get_mut_and_prune() {
    let mut g = MarkovGraph::new();
    g.ensure_edge(ExeId(0), ExeId(1), 0, MarkovState::Neither);
    g.ensure_edge(ExeId(1), ExeId(2), 0, MarkovState::Neither);
    g.ensure_edge(ExeId(0), ExeId(2), 0, MarkovState::Neither);
    if let Some(edge) = g.get_mut(EdgeKey::new(ExeId(2), ExeId(1))) {
        edge.both_running_time = 42;
    }
    assert!(g.get_mut(EdgeKey(ExeId(2), ExeId(1))).is_none());
    assert_eq!(g.get(EdgeKey::new(ExeId(1), ExeId(2))).unwrap().both_running_time, 42);
    assert_eq!(g.iter().len(), 3);

    let mut active = ActiveSet::new();
    active.update(&vec![ExeId(1), ExeId(2)], 5);
    g.prune_inactive(&active);
    assert_eq!(g.len(), 1);
    assert_eq!(g.entry(0).0, EdgeKey::new(ExeId(1), ExeId(2)));
    assert_eq!(g.entry(0).1.both_running_time, 42);
    g.prune_inactive(&ActiveSet::new());
    assert_eq!(g.len(), 0);
}

#[test]
fn record_stores_keep_identifiers() {
    let mut exes = ExeStore::new();
    let a = exes.ensure(ExeKey::new("/bin/a"));
    let b = exes.ensure(ExeKey::new("/bin/b"));
    assert_ne!(a, b);
    assert_eq!(exes.ensure(ExeKey::new("/bin/a")), a);
    assert_eq!(exes.len(), 2);
    assert_eq!(exes.id_by_key(&ExeKey::new("/bin/b")), Some(b));
    assert_eq!(exes.id_by_key(&ExeKey::new("/bin/c")), None);
    assert!(exes.contains(a));
    assert!(exes.get(ExeId(2)).is_none());
    exes.set_running(a, true);
    exes.add_running_time(a, 7);
    exes.add_running_time(a, u64::MAX);
    exes.set_change_time(a, 3);
    exes.set_last_seen(a, Some(9));
    let e = exes.get(a).unwrap();
    assert!(e.running);
    assert_eq!(e.total_running_time, u64::MAX);
    assert_eq!(e.change_time, 3);
    assert_eq!(e.last_seen_time, Some(9));
    assert_eq!(exes.id_by_key(&ExeKey::new("/bin/a")), Some(a));

    let mut maps = MapStore::new();
    let x = maps.ensure(MapSegment::new("/lib/x", 0, 10, 1));
    let y = maps.ensure(MapSegment::new("/lib/x", 10, 10, 1));
    assert_ne!(x, y);
    assert_eq!(maps.ensure(MapSegment::new("/lib/x", 0, 10, 5)), x);
    assert_eq!(maps.get(x).unwrap().update_time, 5);
    assert_eq!(maps.get(y).unwrap().update_time, 1);
    assert_eq!(maps.len(), 2);
    assert_eq!(maps.id_by_key(&MapKey::new("/lib/x", 10, 10)), Some(y));
    assert_eq!(maps.id_by_key(&MapKey::new("/lib/x", 10, 11)), None);
}

#[test]
fn id_by_key_stays_the_same_after_ensure_map() {
    let mut stores = Stores::new();
    let mut ids = Vec::new();
    for i in 0..20u64 {
        let id = stores.ensure_map(MapSegment::new(&format!("/lib/{}", i % 7), i % 3, 100, i));
        ids.push((format!("/lib/{}", i % 7), i % 3, id));
        for (path, offset, id) in ids.iter() {
            assert_eq!(stores.maps().id_by_key(&MapKey::new(path, *offset, 100)), Some(*id));
        }
    }
    assert_eq!(stores.maps().len(), 20);
    let again = stores.ensure_map(MapSegment::new("/lib/3", 0, 100, 77));
    assert_eq!(stores.maps().get(again).unwrap().update_time, 77);
    assert_eq!(stores.maps().len(), 20);
}

#[test]
fn stores_refuse_what_would_break_them() {
    let mut stores = Stores::default();
    let a = stores.ensure_exe(ExeKey::new("/bin/a"));
    let b = stores.ensure_exe(ExeKey::new("/bin/b"));
    let m = stores.ensure_map(MapSegment::new("/lib/m", 0, 1, 0));
    assert_eq!(stores.ensure_exe(ExeKey::new("/bin/a")), a);

    stores.attach_map(a, m);
    stores.attach_map(a, m);
    stores.attach_map(ExeId(9), m);
    stores.attach_map(a, MapId(9));
    assert_eq!(stores.exe_maps().len(), 1);

    assert!(!stores.ensure_markov_edge(a, a, 0, MarkovState::Neither));
    assert!(!stores.ensure_markov_edge(a, ExeId(9), 0, MarkovState::Neither));
    assert!(stores.ensure_markov_edge(b, a, 3, MarkovState::AOnly));
    assert!(!stores.ensure_markov_edge(a, b, 4, MarkovState::Both));
    assert_eq!(stores.markov().len(), 1);
    assert_eq!(stores.markov().entry(0).0, EdgeKey(a, b));

    stores.touch_active(ExeId(9), 1);
    assert_eq!(stores.active().len(), 0);
    stores.mark_seen(ExeId(9), 1);
    stores.set_running(ExeId(9), true);
    stores.set_change_time(ExeId(9), 1);
    stores.add_running_time(ExeId(9), 1);
    stores.restore_exe(ExeId(9), 1, None);
    assert_eq!(stores.exes().len(), 2);
    assert!(!stores.exe_runs(ExeId(9)));

    // no executable of the edge is active
    assert_eq!(stores.prune_edges(), 1);
    assert_eq!(stores.markov().len(), 0);
}

#[test]
fn stores_edges_follow_the_active_set() {
    let mut stores = Stores::new();
    let a = stores.ensure_exe(ExeKey::new("/bin/a"));
    let b = stores.ensure_exe(ExeKey::new("/bin/b"));
    let c = stores.ensure_exe(ExeKey::new("/bin/c"));
    stores.touch_active(a, 0);
    stores.touch_active(b, 50);
    stores.touch_active(c, 60);
    stores.ensure_markov_edge(a, b, 60, MarkovState::Neither);
    stores.ensure_markov_edge(b, c, 60, MarkovState::Neither);
    stores.mark_seen(b, 60);
    stores.mark_seen(c, 60);
    assert_eq!(stores.settle_edge(0, 60).unwrap().to, MarkovState::BOnly);
    assert_eq!(stores.settle_edge(1, 60).unwrap().to, MarkovState::Both);
    assert_eq!(stores.settle_edge(1, 70), None);
    assert_eq!(stores.settle_edge(5, 70), None);
    stores.account_edge(0, 10);
    stores.account_edge(1, 10);
    assert_eq!(stores.markov().entry(0).1.both_running_time, 0);
    assert_eq!(stores.markov().entry(1).1.both_running_time, 10);
    assert!(stores.set_edge_statistics(EdgeKey::new(c, b), [1, 2, 3, 4], [[5; 4]; 4]));
    assert!(!stores.set_edge_statistics(EdgeKey::new(c, a), [1, 2, 3, 4], [[5; 4]; 4]));
    let e = stores.markov().entry(1).1;
    assert_eq!(e.time_to_leave, [1, 2, 3, 4]);
    assert_eq!(e.transition_prob, [[5; 4]; 4]);
    assert_eq!(e.both_running_time, 10);
    assert_eq!(e.state, MarkovState::Both);

    // a was seen 60 ago: outside a window of 30
    assert_eq!(stores.prune_active(60, 30), 1);
    assert_eq!(stores.markov().len(), 1);
    assert_eq!(stores.markov().entry(0).0, EdgeKey(b, c));
    assert!(!stores.active().contains(a));
    assert!(stores.active().contains(b));
}

#[test]
fn bad_exes_are_remembered() {
    let mut stores = Stores::new();
    assert!(!stores.is_bad_exe(&"/bin/tiny".to_string()));
    stores.note_bad_exe("/bin/tiny".to_string(), 1024);
    assert!(stores.is_bad_exe(&"/bin/tiny".to_string()));
    assert_eq!(stores.bad_exe_count(), 1);
    assert_eq!(stores.bad_exe(0).path, "/bin/tiny");
    assert_eq!(stores.bad_exe(0).size, 1024);
}

#[test]
fn test_markov_state_default() {
    assert_eq!(MarkovState::Neither, MarkovState::default());
}

#[test]
fn an_empty_graph_rejects_a_self_edge() {
    let mut g = MarkovGraph::new();
    assert!(!g.ensure_edge(ExeId(0), ExeId(0), 0, MarkovState::Neither));
    assert_eq!(g.len(), 0);
    assert!(g.iter().is_empty());
}
