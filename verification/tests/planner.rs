use orchestrator::config::{Config, MemoryPolicy, Model, Persistence, SortStrategy, System};
use orchestrator::domain::{MapId, MapSegment, MemStat};
use orchestrator::prediction::{MapScore, Prediction};
use orchestrator::prefetch::{FileStat, GreedyPrefetchPlanner, MapSortMeta};
use orchestrator::stores::Stores;

fn config(memory: MemoryPolicy, sortstrategy: SortStrategy) -> Config {
    Config {
        system: System {
            doscan: true,
            dopredict: true,
            prefetch_concurrency: 1,
            sortstrategy,
            exeprefix: Vec::new(),
            autosave: 3600,
        },
        model: Model {
            cycle: 20,
            use_correlation: true,
            minsize: 2_000_000,
            active_window: 21_600,
            memory,
        },
        persistence: Persistence::default(),
    }
}

fn score(map: MapId, value: f32) -> MapScore {
    MapScore { map, score: value.to_bits() }
}

fn mem(total: u64, free: u64, cached: u64) -> MemStat {
    MemStat { total, free, cached, pagein: 0, pageout: 0 }
}

#[test]
fn planner_selects_maps_within_budget() {
    let config = config(
        MemoryPolicy { memtotal: 0, memfree: 100, memcached: 0 },
        SortStrategy::Unsorted,
    );

    let planner = GreedyPrefetchPlanner::new(&config);
    let mut stores = Stores::default();

    let map_a = stores.ensure_map(MapSegment::new("/a", 0, 2048, 0));
    let map_b = stores.ensure_map(MapSegment::new("/b", 0, 2048, 0));
    let map_c = stores.ensure_map(MapSegment::new("/c", 0, 1024, 0));

    let mut prediction = Prediction::default();
    prediction.map_scores.push(score(map_a, 0.9));
    prediction.map_scores.push(score(map_b, 0.8));
    prediction.map_scores.push(score(map_c, 0.7));

    let mem = MemStat { total: 0, free: 3, cached: 0, pagein: 0, pageout: 0 };

    let plan = planner.plan(&prediction, &stores, &mem);

    assert_eq!(plan.maps.len(), 2);
    assert!(plan.maps.contains(&map_a));
    assert!(plan.maps.contains(&map_c));
    assert!(!plan.maps.contains(&map_b));
    assert_eq!(plan.total_bytes, 2048 + 1024);
    assert_eq!(plan.budget_bytes, 3 * 1024);
}

#[test]
fn budgeted_plan_keeps_the_order_of_the_scores() {
    let config = config(
        MemoryPolicy { memtotal: 0, memfree: 100, memcached: 0 },
        SortStrategy::Unsorted,
    );
    let planner = GreedyPrefetchPlanner::new(&config);
    let mut stores = Stores::new();
    let map_a = stores.ensure_map(MapSegment::new("/a", 0, 2048, 0));
    let map_b = stores.ensure_map(MapSegment::new("/b", 0, 2048, 0));
    let map_c = stores.ensure_map(MapSegment::new("/c", 0, 1024, 0));
    let mut prediction = Prediction::new();
    // given out of order: the planner sorts by score
    prediction.map_scores.push(score(map_c, 0.7));
    prediction.map_scores.push(score(map_b, 0.8));
    prediction.map_scores.push(score(map_a, 0.9));
    let plan = planner.plan(&prediction, &stores, &mem(0, 3, 0));
    assert_eq!(plan.maps, vec![map_a, map_c]);
    assert_eq!(plan.total_bytes, 3072);
    assert_eq!(plan.budget_bytes, 3072);
}

#[test]
fn available_kb_follows_the_policy() {
    let planner = GreedyPrefetchPlanner::new(&config(MemoryPolicy::default(), SortStrategy::Block));
    // -10% of 1000 + 50% of 600 = 200, cached share 0
    assert_eq!(planner.available_kb(&mem(1000, 600, 400)), 200);
    // the debit outweighs the free share: not below zero
    assert_eq!(planner.available_kb(&mem(10_000, 600, 400)), 0);

    let planner = GreedyPrefetchPlanner::new(&config(
        MemoryPolicy { memtotal: -10, memfree: 50, memcached: 25 },
        SortStrategy::Block,
    ));
    // first sum is cut at zero, then the cached share is added
    assert_eq!(planner.available_kb(&mem(10_000, 600, 400)), 100);

    let planner = GreedyPrefetchPlanner::new(&config(
        MemoryPolicy { memtotal: 0, memfree: 50, memcached: -100 },
        SortStrategy::Block,
    ));
    assert_eq!(planner.available_kb(&mem(0, 100, 80)), 0);
    assert_eq!(planner.available_kb(&mem(0, 100, 30)), 20);
}

#[test]
fn shares_round_towards_zero() {
    let planner = GreedyPrefetchPlanner::new(&config(
        MemoryPolicy { memtotal: -10, memfree: 100, memcached: 0 },
        SortStrategy::Block,
    ));
    // -10% of 15 is -1.5, rounded to -1: 10 - 1 = 9
    assert_eq!(planner.available_kb(&mem(15, 10, 0)), 9);
    let planner = GreedyPrefetchPlanner::new(&config(
        MemoryPolicy { memtotal: 10, memfree: 0, memcached: 0 },
        SortStrategy::Block,
    ));
    assert_eq!(planner.available_kb(&mem(19, 0, 0)), 1);
}

#[test]
fn policy_is_clamped_by_the_planner() {
    let planner = GreedyPrefetchPlanner::new(&config(
        MemoryPolicy { memtotal: 0, memfree: 1000, memcached: -1000 },
        SortStrategy::Block,
    ));
    // 100% of free, -100% of cached
    assert_eq!(planner.available_kb(&mem(0, 500, 200)), 300);
}

#[test]
fn available_kb_stops_at_the_largest_value() {
    let planner = GreedyPrefetchPlanner::new(&config(
        MemoryPolicy { memtotal: 100, memfree: 100, memcached: 100 },
        SortStrategy::Block,
    ));
    assert_eq!(planner.available_kb(&mem(u64::MAX, u64::MAX, u64::MAX)), u64::MAX);
    let mut stores = Stores::new();
    let map = stores.ensure_map(MapSegment::new("/a", 0, 10, 0));
    let mut prediction = Prediction::new();
    prediction.map_scores.push(score(map, 0.5));
    let plan = planner.plan(&prediction, &stores, &mem(u64::MAX, 0, 0));
    assert_eq!(plan.budget_bytes, u64::MAX);
    assert_eq!(plan.maps, vec![map]);
}

#[test]
fn planner_kb_rounds_up() {
    assert_eq!(GreedyPrefetchPlanner::kb(0), 0);
    assert_eq!(GreedyPrefetchPlanner::kb(1), 1);
    assert_eq!(GreedyPrefetchPlanner::kb(1024), 1);
    assert_eq!(GreedyPrefetchPlanner::kb(1025), 2);
    assert_eq!(GreedyPrefetchPlanner::kb(u64::MAX), 18_014_398_509_481_984);
}

#[test]
fn a_map_too_large_is_skipped_and_a_smaller_one_taken() {
    let planner = GreedyPrefetchPlanner::new(&config(
        MemoryPolicy { memtotal: 0, memfree: 100, memcached: 0 },
        SortStrategy::Unsorted,
    ));
    let mut stores = Stores::new();
    let big = stores.ensure_map(MapSegment::new("/big", 0, 10 * 1024, 0));
    let small = stores.ensure_map(MapSegment::new("/small", 0, 2 * 1024 + 1, 0));
    let mut prediction = Prediction::new();
    prediction.map_scores.push(score(big, 1.0));
    prediction.map_scores.push(score(small, 0.1));
    // an unknown map is passed over
    prediction.map_scores.push(score(MapId(99), 0.9));
    let plan = planner.plan(&prediction, &stores, &mem(0, 3, 0));
    assert_eq!(plan.maps, vec![small]);
    assert_eq!(plan.total_bytes, 2049);
}

#[test]
fn equal_scores_keep_their_order() {
    let planner = GreedyPrefetchPlanner::new(&config(
        MemoryPolicy { memtotal: 0, memfree: 100, memcached: 0 },
        SortStrategy::Unsorted,
    ));
    let mut stores = Stores::new();
    let a = stores.ensure_map(MapSegment::new("/a", 0, 1024, 0));
    let b = stores.ensure_map(MapSegment::new("/b", 0, 1024, 0));
    let c = stores.ensure_map(MapSegment::new("/c", 0, 1024, 0));
    let mut prediction = Prediction::new();
    prediction.map_scores.push(score(c, 0.5));
    prediction.map_scores.push(score(a, 0.5));
    prediction.map_scores.push(score(b, 0.75));
    let plan = planner.plan(&prediction, &stores, &mem(0, 100, 0));
    assert_eq!(plan.maps, vec![b, c, a]);
}

#[test]
fn path_strategy_orders_ties_by_path() {
    let planner = GreedyPrefetchPlanner::new(&config(
        MemoryPolicy { memtotal: 0, memfree: 100, memcached: 0 },
        SortStrategy::Path,
    ));
    let mut stores = Stores::new();
    let z = stores.ensure_map(MapSegment::new("/z", 0, 1024, 0));
    let a = stores.ensure_map(MapSegment::new("/a/b", 0, 1024, 0));
    let ab = stores.ensure_map(MapSegment::new("/a", 0, 1024, 0));
    let top = stores.ensure_map(MapSegment::new("/zz", 0, 1024, 0));
    let mut prediction = Prediction::new();
    prediction.map_scores.push(score(z, 0.5));
    prediction.map_scores.push(score(a, 0.5));
    prediction.map_scores.push(score(ab, 0.5));
    prediction.map_scores.push(score(top, 0.9));
    let plan = planner.plan(&prediction, &stores, &mem(0, 100, 0));
    // the score comes first, the path decides among equal scores
    assert_eq!(plan.maps, vec![top, ab, a, z]);
}

#[test]
fn block_and_inode_strategies_use_what_is_remembered() {
    let mut stores = Stores::new();
    let a = stores.ensure_map(MapSegment::new("/a", 8192, 1024, 0));
    let b = stores.ensure_map(MapSegment::new("/b", 4096, 1024, 0));
    let c = stores.ensure_map(MapSegment::new("/c", 0, 1024, 0));
    let mut prediction = Prediction::new();
    prediction.map_scores.push(score(a, 0.5));
    prediction.map_scores.push(score(b, 0.5));
    prediction.map_scores.push(score(c, 0.5));
    let m = mem(0, 100, 0);

    let mut planner = GreedyPrefetchPlanner::new(&config(
        MemoryPolicy { memtotal: 0, memfree: 100, memcached: 0 },
        SortStrategy::Block,
    ));
    assert_eq!(planner.unresolved(&prediction, &stores, &m), vec![a, b, c]);
    // nothing remembered: selection order
    assert_eq!(planner.plan(&prediction, &stores, &m).maps, vec![a, b, c]);

    planner.remember(&stores, a, Some(FileStat { device: 1, inode: 7, block_size: 4096 }));
    planner.remember(&stores, b, Some(FileStat { device: 1, inode: 3, block_size: 0 }));
    planner.remember(&stores, c, None);
    assert_eq!(
        planner.sort_meta(a),
        Some(Some(MapSortMeta { device: 1, inode: 7, block: 2 }))
    );
    // without a block size 4096 is taken
    assert_eq!(
        planner.sort_meta(b),
        Some(Some(MapSortMeta { device: 1, inode: 3, block: 1 }))
    );
    assert_eq!(planner.sort_meta(c), Some(None));
    assert_eq!(planner.sort_meta(MapId(9)), None);
    assert_eq!(planner.unresolved(&prediction, &stores, &m), Vec::<MapId>::new());
    // a failed lookup has no key and comes first; then by block
    assert_eq!(planner.plan(&prediction, &stores, &m).maps, vec![c, b, a]);

    // what is remembered stays
    planner.remember(&stores, a, Some(FileStat { device: 9, inode: 9, block_size: 1 }));
    assert_eq!(
        planner.sort_meta(a),
        Some(Some(MapSortMeta { device: 1, inode: 7, block: 2 }))
    );
    // nothing is remembered of a map that the stores do not have
    planner.remember(&stores, MapId(9), None);
    assert_eq!(planner.sort_meta(MapId(9)), None);

    let mut planner = GreedyPrefetchPlanner::new(&config(
        MemoryPolicy { memtotal: 0, memfree: 100, memcached: 0 },
        SortStrategy::Inode,
    ));
    planner.remember(&stores, a, Some(FileStat { device: 1, inode: 7, block_size: 4096 }));
    planner.remember(&stores, b, Some(FileStat { device: 1, inode: 3, block_size: 4096 }));
    planner.remember(&stores, c, Some(FileStat { device: 0, inode: 9, block_size: 4096 }));
    assert_eq!(planner.plan(&prediction, &stores, &m).maps, vec![c, b, a]);
}

#[test]
fn selected_kilobytes_stay_within_the_budget() {
    let planner = GreedyPrefetchPlanner::new(&config(
        MemoryPolicy { memtotal: 0, memfree: 100, memcached: 0 },
        SortStrategy::Path,
    ));
    let mut stores = Stores::new();
    let mut prediction = Prediction::new();
    let lengths = [1u64, 1023, 1024, 1025, 4096, 700, 9000, 2048];
    for (i, len) in lengths.iter().enumerate() {
        let id = stores.ensure_map(MapSegment::new(&format!("/m{}", i), 0, *len, 0));
        prediction.map_scores.push(score(id, 0.1 * (i as f32)));
    }
    for budget in 0..20u64 {
        let plan = planner.plan(&prediction, &stores, &mem(0, budget, 0));
        let used: u64 = plan
            .maps
            .iter()
            .map(|id| GreedyPrefetchPlanner::kb(stores.maps().get(*id).unwrap().length))
            .sum();
        assert!(used <= budget);
        assert_eq!(plan.budget_bytes, budget * 1024);
    }
}

#[test]
fn paths_are_ordered_component_by_component() {
    let planner = GreedyPrefetchPlanner::new(&config(
        MemoryPolicy { memtotal: 0, memfree: 100, memcached: 0 },
        SortStrategy::Path,
    ));
    let mut stores = Stores::new();
    let dashed = stores.ensure_map(MapSegment::new("/usr/lib-x/a", 0, 1024, 0));
    let plain = stores.ensure_map(MapSegment::new("/usr/lib/a", 0, 1024, 0));
    let twin = stores.ensure_map(MapSegment::new("/usr/lib/a", 4096, 1024, 0));
    let mut prediction = Prediction::new();
    prediction.insert_map_score(dashed, 0.5f32.to_bits());
    prediction.insert_map_score(twin, 0.5f32.to_bits());
    prediction.insert_map_score(plain, 0.5f32.to_bits());
    let plan = planner.plan(&prediction, &stores, &mem(0, 100, 0));
    // the component `lib` comes before `lib-x`, though `-` comes before `/`;
    // two maps of one file keep the order of the selection
    assert_eq!(plan.maps, vec![twin, plain, dashed]);
}

#[test]
fn a_prediction_holds_one_score_for_a_map() {
    let mut prediction = Prediction::new();
    assert!(prediction.has_distinct_ids());
    prediction.insert_map_score(MapId(1), 10);
    prediction.insert_map_score(MapId(2), 20);
    prediction.insert_map_score(MapId(1), 30);
    prediction.insert_exe_score(orchestrator::domain::ExeId(4), 5);
    prediction.insert_exe_score(orchestrator::domain::ExeId(4), 6);
    assert_eq!(
        prediction.map_scores,
        vec![MapScore { map: MapId(1), score: 30 }, MapScore { map: MapId(2), score: 20 }]
    );
    assert_eq!(prediction.exe_scores.len(), 1);
    assert_eq!(prediction.exe_scores[0].score, 6);
    assert!(prediction.has_distinct_ids());
    prediction.map_scores.push(MapScore { map: MapId(2), score: 1 });
    assert!(!prediction.has_distinct_ids());
}

#[test]
fn a_plan_holds_no_map_twice() {
    let planner = GreedyPrefetchPlanner::new(&config(
        MemoryPolicy { memtotal: 0, memfree: 100, memcached: 0 },
        SortStrategy::Path,
    ));
    let mut stores = Stores::new();
    let a = stores.ensure_map(MapSegment::new("/a", 0, 1024, 0));
    let b = stores.ensure_map(MapSegment::new("/b", 0, 1024, 0));
    let mut prediction = Prediction::new();
    prediction.insert_map_score(a, 0.5f32.to_bits());
    prediction.insert_map_score(b, 0.25f32.to_bits());
    prediction.insert_map_score(a, 0.125f32.to_bits());
    let plan = planner.plan(&prediction, &stores, &mem(0, 100, 0));
    assert_eq!(plan.maps, vec![b, a]);
    assert_eq!(plan.total_bytes, 2048);
}
