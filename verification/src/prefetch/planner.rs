//! The greedy planner: it takes maps by descending score while the memory
//! budget lasts, and orders what it took for issue.

use std::collections::HashMap;
use vstd::prelude::*;
use crate::config::{Config, MemoryPolicy, SortStrategy};
use crate::domain::{capped_sum, MapId, MapSegmentView, MemStat};
use crate::prediction::{distinct_maps, MapScore, Prediction};
use crate::prefetch::order::{
    arrange, arranged, item_order, items_view, lemma_item_order_total, picked, precedes,
    SortItem, SortItemView, SortKey, SortKeyView,
};
use crate::prefetch::plan::PrefetchPlan;
use crate::stores::state::Stores;
use crate::paths::{path_ranks, path_views, rank_of};

verus! {

/// Block size taken where the file system reports none.
pub const DEFAULT_BLOCK_SIZE: u64 = 4096;

/// Bytes in a kilobyte.
pub const KILOBYTE: u64 = 1024;

/// What the file system says of a mapped file.
#[derive(Clone, Copy, Debug, PartialEq, Eq, Structural)]
pub struct FileStat {
    pub device: u64,
    pub inode: u64,
    /// Preferred block size of the file system; zero where it reports none.
    pub block_size: u64,
}

/// Where a map lies on disk.
#[derive(Clone, Copy, Debug, PartialEq, Eq, Structural)]
pub struct MapSortMeta {
    pub device: u64,
    pub inode: u64,
    /// The offset of the map in blocks.
    pub block: u64,
}

/// Kilobytes that hold `bytes`, rounded up.
pub open spec fn kb_of(bytes: int) -> int {
    if bytes % 1024 == 0 {
        bytes / 1024
    } else {
        bytes / 1024 + 1
    }
}

/// `percent` hundredths of `amount`, rounded towards zero.
pub open spec fn share_of(percent: int, amount: int) -> int {
    if percent >= 0 {
        percent * amount / 100
    } else {
        -((-percent) * amount / 100)
    }
}

/// `v`, or zero where `v` is negative.
pub open spec fn at_least_zero(v: int) -> int {
    if v < 0 {
        0
    } else {
        v
    }
}

/// Kilobytes that `policy` allows to prefetch at the memory figures `mem`:
/// the shares of total and free memory, not below zero, then the share of
/// cached memory, not below zero.
pub open spec fn available(policy: MemoryPolicy, mem: MemStat) -> int {
    at_least_zero(
        at_least_zero(
            share_of(policy.memtotal as int, mem.total as int) + share_of(
                policy.memfree as int,
                mem.free as int,
            ),
        ) + share_of(policy.memcached as int, mem.cached as int),
    )
}

/// `v`, or the largest 64-bit value where `v` lies above it.
pub open spec fn capped(v: int) -> u64 {
    if v > u64::MAX {
        u64::MAX
    } else {
        v as u64
    }
}

/// Where a map at `offset` lies on disk, given what the file system says
/// of its file.
pub open spec fn meta_of(offset: u64, stat: FileStat) -> MapSortMeta {
    MapSortMeta {
        device: stat.device,
        inode: stat.inode,
        block: (if stat.block_size > 0 {
            offset / stat.block_size
        } else {
            offset / DEFAULT_BLOCK_SIZE
        }) as u64,
    }
}

/// The maps of a prediction as sort items without keys, each at its
/// position.
pub open spec fn candidates(scores: Seq<MapScore>) -> Seq<SortItemView> {
    Seq::new(
        scores.len(),
        |i: int|
            SortItemView {
                id: scores[i].map,
                score: scores[i].score,
                index: i,
                key: SortKeyView::Unknown,
            },
    )
}

/// Whether the map of `item` exists and fits into `budget` kilobytes.
pub open spec fn fits(item: SortItemView, maps: Seq<MapSegmentView>, budget: int) -> bool {
    item.id.0 < maps.len() && kb_of(maps[item.id.0 as int].length as int) <= budget
}

/// The items that the greedy pass takes from `items` with `budget`
/// kilobytes: it goes through the items in order, takes each that exists
/// and fits into what is left of the budget, and skips the others.
pub open spec fn greedy(items: Seq<SortItemView>, maps: Seq<MapSegmentView>, budget: int) -> Seq<
    SortItemView,
>
    decreases items.len(),
{
    if items.len() == 0 {
        Seq::empty()
    } else if fits(items[0], maps, budget) {
        seq![items[0]] + greedy(
            items.drop_first(),
            maps,
            budget - kb_of(maps[items[0].id.0 as int].length as int),
        )
    } else {
        greedy(items.drop_first(), maps, budget)
    }
}

/// Kilobytes of the maps of `items`, each rounded up.
pub open spec fn footprint(items: Seq<SortItemView>, maps: Seq<MapSegmentView>) -> int
    decreases items.len(),
{
    if items.len() == 0 {
        0
    } else {
        footprint(items.drop_last(), maps) + (if items.last().id.0 < maps.len() {
            kb_of(maps[items.last().id.0 as int].length as int)
        } else {
            0
        })
    }
}

/// Bytes of the maps of `items`; the sum stops at the largest value.
pub open spec fn total_length(items: Seq<SortItemView>, maps: Seq<MapSegmentView>) -> u64
    decreases items.len(),
{
    if items.len() == 0 {
        0
    } else {
        capped_sum(
            total_length(items.drop_last(), maps),
            if items.last().id.0 < maps.len() {
                maps[items.last().id.0 as int].length
            } else {
                0
            },
        )
    }
}

/// The path of the file of the map `id`, and the empty path where the
/// map does not exist.
pub open spec fn path_of(id: MapId, maps: Seq<MapSegmentView>) -> Seq<char> {
    if id.0 < maps.len() {
        maps[id.0 as int].path
    } else {
        Seq::empty()
    }
}

/// The paths of the files of the selected maps.
pub open spec fn paths_of(selected: Seq<SortItemView>, maps: Seq<MapSegmentView>) -> Seq<
    Seq<char>,
> {
    Seq::new(selected.len(), |i: int| path_of(selected[i].id, maps))
}

/// The key by which `strategy` places the map `id`, whose path has the
/// rank `rank` among the paths of the selection.
pub open spec fn key_for(
    strategy: SortStrategy,
    id: MapId,
    maps: Seq<MapSegmentView>,
    cache: Map<MapId, Option<MapSortMeta>>,
    rank: usize,
) -> SortKeyView {
    if id.0 >= maps.len() {
        SortKeyView::Unknown
    } else {
        match strategy {
            SortStrategy::Unsorted => SortKeyView::Unknown,
            SortStrategy::Path => SortKeyView::Path(rank),
            SortStrategy::Block => if cache.contains_key(id) && cache[id] is Some {
                SortKeyView::Block(
                    cache[id]->0.device,
                    cache[id]->0.block,
                    maps[id.0 as int].offset,
                )
            } else {
                SortKeyView::Unknown
            },
            SortStrategy::Inode => if cache.contains_key(id) && cache[id] is Some {
                SortKeyView::Inode(
                    cache[id]->0.device,
                    cache[id]->0.inode,
                    maps[id.0 as int].offset,
                )
            } else {
                SortKeyView::Unknown
            },
        }
    }
}

/// The selected items with the keys of `strategy`, each at its position
/// in the selection.
pub open spec fn keyed(
    selected: Seq<SortItemView>,
    strategy: SortStrategy,
    maps: Seq<MapSegmentView>,
    cache: Map<MapId, Option<MapSortMeta>>,
) -> Seq<SortItemView> {
    Seq::new(
        selected.len(),
        |i: int|
            SortItemView {
                id: selected[i].id,
                score: selected[i].score,
                index: i,
                key: key_for(
                    strategy,
                    selected[i].id,
                    maps,
                    cache,
                    rank_of(paths_of(selected, maps), i) as usize,
                ),
            },
    )
}

/// The identifiers of `items`.
pub open spec fn ids_of(items: Seq<SortItemView>) -> Seq<MapId> {
    items.map_values(|it: SortItemView| it.id)
}

/// The greedy pass never takes more than the budget: the kilobytes of what
/// it takes, each map rounded up, are within `budget`.
pub proof fn lemma_greedy_within_budget(
    items: Seq<SortItemView>,
    maps: Seq<MapSegmentView>,
    budget: int,
)
    requires
        budget >= 0,
    ensures
        footprint(greedy(items, maps, budget), maps) <= budget,
        forall|k: int|
            0 <= k < greedy(items, maps, budget).len() ==> (#[trigger] greedy(
                items,
                maps,
                budget,
            )[k]).id.0 < maps.len(),
    decreases items.len(),
{
    if items.len() > 0 {
        if fits(items[0], maps, budget) {
            let cost = kb_of(maps[items[0].id.0 as int].length as int);
            let rest = greedy(items.drop_first(), maps, budget - cost);
            lemma_greedy_within_budget(items.drop_first(), maps, budget - cost);
            lemma_footprint_prepend(items[0], rest, maps);
        } else {
            lemma_greedy_within_budget(items.drop_first(), maps, budget);
        }
    }
}

proof fn lemma_footprint_prepend(
    first: SortItemView,
    rest: Seq<SortItemView>,
    maps: Seq<MapSegmentView>,
)
    ensures
        footprint(seq![first] + rest, maps) == footprint(rest, maps) + (if first.id.0
            < maps.len() {
            kb_of(maps[first.id.0 as int].length as int)
        } else {
            0
        }),
    decreases rest.len(),
{
    let all = seq![first] + rest;
    if rest.len() == 0 {
        assert(all.drop_last() =~= Seq::<SortItemView>::empty());
        assert(all.last() == first);
        assert(footprint(all.drop_last(), maps) == 0);
        assert(footprint(rest, maps) == 0);
    } else {
        assert(all.drop_last() =~= seq![first] + rest.drop_last());
        assert(all.last() == rest.last());
        lemma_footprint_prepend(first, rest.drop_last(), maps);
    }
}

/// The scores of `items` do not rise along the list.
pub open spec fn scores_descend(items: Seq<SortItemView>) -> bool {
    forall|a: int, b: int| 0 <= a < b < items.len() ==> items[a].score >= items[b].score
}

/// From a list whose scores do not rise the greedy pass takes a list whose
/// scores do not rise, and no score in it lies above the first of the list.
pub proof fn lemma_greedy_descends(
    items: Seq<SortItemView>,
    maps: Seq<MapSegmentView>,
    budget: int,
)
    requires
        scores_descend(items),
    ensures
        scores_descend(greedy(items, maps, budget)),
        forall|k: int|
            0 <= k < greedy(items, maps, budget).len() ==> items.len() > 0 && (#[trigger] greedy(
                items,
                maps,
                budget,
            )[k]).score <= items[0].score,
    decreases items.len(),
{
    if items.len() > 0 {
        let rest = items.drop_first();
        assert forall|a: int, b: int| 0 <= a < b < rest.len() implies rest[a].score
            >= rest[b].score by {
            assert(items[a + 1].score >= items[b + 1].score);
        }
        if rest.len() > 0 {
            assert(items[0].score >= items[1].score);
            assert(rest[0] == items[1]);
        }
        if fits(items[0], maps, budget) {
            let cost = kb_of(maps[items[0].id.0 as int].length as int);
            lemma_greedy_descends(rest, maps, budget - cost);
        } else {
            lemma_greedy_descends(rest, maps, budget);
        }
    }
}

/// Along the arrangement of a list the scores do not rise.
pub proof fn lemma_arranged_descends(items: Seq<SortItemView>)
    ensures
        scores_descend(arranged(items)),
{
    lemma_item_order_total();
    items.lemma_sort_by_ensures(item_order());
    let s = arranged(items);
    assert forall|a: int, b: int| 0 <= a < b < s.len() implies s[a].score >= s[b].score by {
        assert(item_order()(s[a], s[b]));
        assert(precedes(s[a], s[b]));
    }
}

proof fn lemma_same_ids(keyed_items: Seq<SortItemView>, selected: Seq<SortItemView>)
    requires
        keyed_items.len() == selected.len(),
        forall|i: int| 0 <= i < selected.len() ==> keyed_items[i].id == selected[i].id,
    ensures
        ids_of(keyed_items) == ids_of(selected),
{
    assert(ids_of(keyed_items) =~= ids_of(selected));
}

proof fn lemma_ids_of_permutation(a: Seq<SortItemView>, b: Seq<SortItemView>)
    requires
        a.to_multiset() == b.to_multiset(),
    ensures
        ids_of(a).to_multiset() == ids_of(b).to_multiset(),
    decreases a.len(),
{
    broadcast use vstd::seq_lib::group_to_multiset_ensures;

    if a.len() == 0 {
        assert(b.to_multiset().len() == 0);
        assert(b.len() == 0);
        assert(ids_of(a) =~= ids_of(b));
    } else {
        let x = a.last();
        assert(a.to_multiset().contains(x));
        assert(b.to_multiset().contains(x));
        assert(b.contains(x));
        let j = choose|j: int| 0 <= j < b.len() && b[j] == x;
        let a1 = a.drop_last();
        let b1 = b.remove(j);
        assert(a =~= a1.push(x));
        assert(a1.to_multiset() =~= a.to_multiset().remove(x));
        assert(b1.to_multiset() =~= b.to_multiset().remove(x));
        lemma_ids_of_permutation(a1, b1);
        assert(ids_of(a) =~= ids_of(a1).push(x.id));
        assert(ids_of(b1) =~= ids_of(b).remove(j));
        assert(ids_of(b)[j] == x.id);
        assert(ids_of(b1).to_multiset() =~= ids_of(b).to_multiset().remove(x.id));
        assert(ids_of(b).to_multiset().contains(x.id));
        assert(ids_of(a).to_multiset() =~= ids_of(b).to_multiset());
    }
}

/// Kilobytes that hold the map `id`, rounded up, and zero where the map
/// does not exist.
pub open spec fn cost_of(id: MapId, maps: Seq<MapSegmentView>) -> int {
    if id.0 < maps.len() {
        kb_of(maps[id.0 as int].length as int)
    } else {
        0
    }
}

/// Kilobytes of the maps `ids`, each rounded up.
pub open spec fn kilobytes(ids: Seq<MapId>, maps: Seq<MapSegmentView>) -> int
    decreases ids.len(),
{
    if ids.len() == 0 {
        0
    } else {
        kilobytes(ids.drop_last(), maps) + cost_of(ids.last(), maps)
    }
}

proof fn lemma_footprint_ids(items: Seq<SortItemView>, maps: Seq<MapSegmentView>)
    ensures
        footprint(items, maps) == kilobytes(ids_of(items), maps),
    decreases items.len(),
{
    if items.len() > 0 {
        lemma_footprint_ids(items.drop_last(), maps);
        assert(ids_of(items).drop_last() =~= ids_of(items.drop_last()));
    }
}

proof fn lemma_kilobytes_remove(ids: Seq<MapId>, j: int, maps: Seq<MapSegmentView>)
    requires
        0 <= j < ids.len(),
    ensures
        kilobytes(ids, maps) == kilobytes(ids.remove(j), maps) + cost_of(ids[j], maps),
    decreases ids.len(),
{
    if j == ids.len() - 1 {
        assert(ids.remove(j) =~= ids.drop_last());
    } else {
        lemma_kilobytes_remove(ids.drop_last(), j, maps);
        assert(ids.remove(j).drop_last() =~= ids.drop_last().remove(j));
        assert(ids.remove(j).last() == ids.last());
    }
}

proof fn lemma_kilobytes_permutation(x: Seq<MapId>, y: Seq<MapId>, maps: Seq<MapSegmentView>)
    requires
        x.to_multiset() == y.to_multiset(),
    ensures
        kilobytes(x, maps) == kilobytes(y, maps),
    decreases x.len(),
{
    broadcast use vstd::seq_lib::group_to_multiset_ensures;

    if x.len() == 0 {
        assert(y.to_multiset().len() == 0);
        assert(y.len() == 0);
    } else {
        let last = x.last();
        assert(x.to_multiset().contains(last));
        assert(y.contains(last));
        let j = choose|j: int| 0 <= j < y.len() && y[j] == last;
        let x1 = x.drop_last();
        let y1 = y.remove(j);
        assert(x =~= x1.push(last));
        assert(x1.to_multiset() =~= x.to_multiset().remove(last));
        assert(y1.to_multiset() =~= y.to_multiset().remove(last));
        lemma_kilobytes_permutation(x1, y1, maps);
        lemma_kilobytes_remove(y, j, maps);
    }
}

proof fn lemma_no_duplicates_permutation(x: Seq<MapId>, y: Seq<MapId>)
    requires
        x.no_duplicates(),
        x.to_multiset() == y.to_multiset(),
    ensures
        y.no_duplicates(),
        forall|id: MapId| y.contains(id) <==> x.contains(id),
{
    broadcast use vstd::seq_lib::group_to_multiset_ensures;

    x.lemma_multiset_has_no_duplicates();
    y.lemma_multiset_has_no_duplicates_conv();
    assert forall|id: MapId| y.contains(id) <==> x.contains(id) by {
        assert(y.contains(id) <==> y.to_multiset().count(id) > 0);
        assert(x.contains(id) <==> x.to_multiset().count(id) > 0);
    }
}

/// From items of distinct maps the greedy pass takes items of distinct
/// maps, each of them one of the items.
proof fn lemma_greedy_ids(items: Seq<SortItemView>, maps: Seq<MapSegmentView>, budget: int)
    requires
        ids_of(items).no_duplicates(),
    ensures
        ids_of(greedy(items, maps, budget)).no_duplicates(),
        forall|id: MapId| #[trigger]
            ids_of(greedy(items, maps, budget)).contains(id) ==> ids_of(items).contains(id),
    decreases items.len(),
{
    if items.len() > 0 {
        let rest = items.drop_first();
        assert(ids_of(rest) =~= ids_of(items).drop_first());
        assert forall|i: int, j: int|
            0 <= i < ids_of(rest).len() && 0 <= j < ids_of(rest).len() && i != j implies ids_of(
            rest,
        )[i] != ids_of(rest)[j] by {
            assert(ids_of(items)[i + 1] != ids_of(items)[j + 1]);
        }
        let next = if fits(items[0], maps, budget) {
            budget - kb_of(maps[items[0].id.0 as int].length as int)
        } else {
            budget
        };
        lemma_greedy_ids(rest, maps, next);
        let sub = greedy(rest, maps, next);
        let taken = greedy(items, maps, budget);
        assert forall|id: MapId| #[trigger] ids_of(sub).contains(id) implies ids_of(
            items,
        ).contains(id) by {
            assert(ids_of(rest).contains(id));
            let k = choose|k: int| 0 <= k < ids_of(rest).len() && ids_of(rest)[k] == id;
            assert(ids_of(items)[k + 1] == id);
        }
        if fits(items[0], maps, budget) {
            assert(ids_of(taken) =~= seq![items[0].id] + ids_of(sub));
            assert(ids_of(items)[0] == items[0].id);
            assert forall|i: int, j: int|
                0 <= i < ids_of(taken).len() && 0 <= j < ids_of(taken).len() && i
                    != j implies ids_of(taken)[i] != ids_of(taken)[j] by {
                if i == 0 || j == 0 {
                    let other = if i == 0 {
                        j
                    } else {
                        i
                    };
                    assert(ids_of(sub).contains(ids_of(sub)[other - 1]));
                    assert(ids_of(rest).contains(ids_of(sub)[other - 1]));
                    let k = choose|k: int|
                        0 <= k < ids_of(rest).len() && ids_of(rest)[k] == ids_of(sub)[other - 1];
                    assert(ids_of(items)[k + 1] != ids_of(items)[0]);
                } else {
                    assert(ids_of(sub)[i - 1] != ids_of(sub)[j - 1]);
                }
            }
            assert forall|id: MapId| #[trigger] ids_of(taken).contains(id) implies ids_of(
                items,
            ).contains(id) by {
                let k = choose|k: int| 0 <= k < ids_of(taken).len() && ids_of(taken)[k] == id;
                if k > 0 {
                    assert(ids_of(sub)[k - 1] == id);
                    assert(ids_of(sub).contains(id));
                }
            }
        }
    }
}

/// Plans by descending score within the memory budget.
#[derive(Debug)]
pub struct GreedyPrefetchPlanner {
    sort: SortStrategy,
    policy: MemoryPolicy,
    /// For each map whose file was looked up, under the number of its
    /// slot: where it lies on disk, or that the lookup failed.
    sort_cache: HashMap<usize, Option<MapSortMeta>>,
}

impl GreedyPrefetchPlanner {
    /// The ordering strategy of the planner.
    pub closed spec fn strategy(&self) -> SortStrategy {
        self.sort
    }

    /// The memory policy of the planner.
    pub closed spec fn policy(&self) -> MemoryPolicy {
        self.policy
    }

    /// What the planner remembers of the files it had looked up.
    pub closed spec fn cache(&self) -> Map<MapId, Option<MapSortMeta>> {
        Map::new(
            |id: MapId| self.sort_cache@.contains_key(id.0),
            |id: MapId| self.sort_cache@[id.0],
        )
    }

    /// The policy is within its range.
    pub closed spec fn wf(&self) -> bool {
        self.policy.in_range()
    }

    /// The planner for `config`: its ordering strategy, and its memory
    /// policy with every share limited to `[-100, 100]`. It remembers no file.
    pub fn new(config: &Config) -> (r: Self)
        ensures
            r.wf(),
            r.strategy() == config.system.sortstrategy,
            r.policy() == config.model.memory.clamp_spec(),
            r.cache() == Map::<MapId, Option<MapSortMeta>>::empty(),
    {
        let r = GreedyPrefetchPlanner {
            sort: config.system.sortstrategy,
            policy: config.model.memory.clamp(),
            sort_cache: HashMap::new(),
        };
        assert(r.cache() =~= Map::<MapId, Option<MapSortMeta>>::empty());
        r
    }

    /// Kilobytes that the policy allows to prefetch at the memory figures
    /// `mem`; the largest 64-bit value where they lie above it.
    pub fn available_kb(&self, mem: &MemStat) -> (r: u64)
        requires
            self.wf(),
        ensures
            r == capped(available(self.policy(), *mem)),
    {
        let total = signed_share(self.policy.memtotal, mem.total);
        let free = signed_share(self.policy.memfree, mem.free);
        let cached = signed_share(self.policy.memcached, mem.cached);
        let mut sum: i128 = total + free;
        if sum < 0 {
            sum = 0;
        }
        sum = sum + cached;
        if sum < 0 {
            sum = 0;
        }
        if sum > 0xFFFF_FFFF_FFFF_FFFF {
            u64::MAX
        } else {
            sum as u64
        }
    }

    /// Kilobytes that hold `bytes`, rounded up.
    pub fn kb(bytes: u64) -> (r: u64)
        ensures
            r == kb_of(bytes as int),
    {
        if bytes % KILOBYTE == 0 {
            bytes / KILOBYTE
        } else {
            bytes / KILOBYTE + 1
        }
    }

    /// What the planner remembers of the file of the map `map_id`: nothing,
    /// that the lookup failed, or where the map lies on disk.
    pub fn sort_meta(&self, map_id: MapId) -> (r: Option<Option<MapSortMeta>>)
        requires
            self.wf(),
        ensures
            r == (if self.cache().contains_key(map_id) {
                Some(self.cache()[map_id])
            } else {
                None
            }),
    {
        broadcast use vstd::std_specs::hash::group_hash_axioms;

        match self.sort_cache.get(&map_id.0) {
            Some(meta) => Some(*meta),
            None => None,
        }
    }

    /// Remembers what a lookup of the file of the map `map_id` gave: `stat`,
    /// or nothing where the lookup failed. A failure is remembered too, so
    /// that a missing file is not looked up again. What the planner
    /// remembers of a map it keeps; nothing is remembered of a map that
    /// the stores do not have.
    pub fn remember(&mut self, stores: &Stores, map_id: MapId, stat: Option<FileStat>)
        requires
            old(self).wf(),
        ensures
            final(self).wf(),
            final(self).strategy() == old(self).strategy(),
            final(self).policy() == old(self).policy(),
            final(self).cache() == (if !old(self).cache().contains_key(map_id)
                && stores@.has_map(map_id) {
                old(self).cache().insert(
                    map_id,
                    match stat {
                        Some(s) => Some(meta_of(stores@.maps[map_id.0 as int].offset, s)),
                        None => None,
                    },
                )
            } else {
                old(self).cache()
            }),
    {
        if self.sort_meta(map_id).is_some() {
            return ;
        }
        let offset = match stores.maps().get(map_id) {
            Some(map) => map.offset,
            None => {
                return ;
            },
        };
        let meta = match stat {
            Some(s) => {
                let block_size = if s.block_size > 0 {
                    s.block_size
                } else {
                    DEFAULT_BLOCK_SIZE
                };
                Some(MapSortMeta { device: s.device, inode: s.inode, block: offset / block_size })
            },
            None => None,
        };
        proof {
            broadcast use vstd::std_specs::hash::group_hash_axioms;

        }
        self.sort_cache.insert(map_id.0, meta);
        assert(self.cache() =~= old(self).cache().insert(map_id, meta));
    }

    /// The items that the planner selects: the maps of `scores` by
    /// descending score, those of one score in the order of `scores`, each
    /// taken if it exists and fits into what is left of the budget.
    pub open spec fn selection(
        &self,
        scores: Seq<MapScore>,
        maps: Seq<MapSegmentView>,
        mem: MemStat,
    ) -> Seq<SortItemView> {
        greedy(arranged(candidates(scores)), maps, capped(available(self.policy(), mem)) as int)
    }

    /// The maps of the plan, in the order of issue: the selection as it
    /// stands where the strategy is `Unsorted`, and arranged by score, by the
    /// key of the strategy and by position in the selection otherwise.
    pub open spec fn planned_items(
        &self,
        scores: Seq<MapScore>,
        maps: Seq<MapSegmentView>,
        mem: MemStat,
    ) -> Seq<SortItemView> {
        let selected = self.selection(scores, maps, mem);
        if self.strategy() == SortStrategy::Unsorted {
            selected
        } else {
            arranged(keyed(selected, self.strategy(), maps, self.cache()))
        }
    }

    /// The identifiers of the maps of the plan, in the order of issue.
    pub open spec fn planned(
        &self,
        scores: Seq<MapScore>,
        maps: Seq<MapSegmentView>,
        mem: MemStat,
    ) -> Seq<MapId> {
        ids_of(self.planned_items(scores, maps, mem))
    }

    /// The selection stays within the budget, and the order of issue goes
    /// by score: the kilobytes of the selected maps, each rounded up, do not
    /// exceed the kilobytes available; along the plan the scores do not
    /// rise; and the plan holds each selected map once for each time it was
    /// selected, so that the ordering strategy decides among maps of one
    /// score only.
    pub proof fn lemma_plan_law(
        &self,
        scores: Seq<MapScore>,
        maps: Seq<MapSegmentView>,
        mem: MemStat,
    )
        ensures
            footprint(self.selection(scores, maps, mem), maps) <= capped(
                available(self.policy(), mem),
            ),
            scores_descend(self.selection(scores, maps, mem)),
            scores_descend(self.planned_items(scores, maps, mem)),
            ids_of(self.planned_items(scores, maps, mem)).to_multiset() == ids_of(
                self.selection(scores, maps, mem),
            ).to_multiset(),
    {
        let budget = capped(available(self.policy(), mem)) as int;
        let sorted = arranged(candidates(scores));
        let selected = self.selection(scores, maps, mem);
        lemma_greedy_within_budget(sorted, maps, budget);
        lemma_arranged_descends(candidates(scores));
        lemma_greedy_descends(sorted, maps, budget);
        if self.strategy() != SortStrategy::Unsorted {
            let items = keyed(selected, self.strategy(), maps, self.cache());
            lemma_arranged_descends(items);
            lemma_item_order_total();
            items.lemma_sort_by_ensures(item_order());
            lemma_same_ids(items, selected);
            lemma_ids_of_permutation(arranged(items), items);
        }
    }

    /// A plan holds no map twice, every map of it has a score in the
    /// prediction and exists, and the kilobytes of its maps, each rounded
    /// up, do not exceed the kilobytes available.
    pub proof fn lemma_plan_maps(
        &self,
        scores: Seq<MapScore>,
        maps: Seq<MapSegmentView>,
        mem: MemStat,
    )
        requires
            distinct_maps(scores),
        ensures
            self.planned(scores, maps, mem).no_duplicates(),
            forall|id: MapId|
                self.planned(scores, maps, mem).contains(id) ==> id.0 < maps.len() && exists|
                    k: int,
                |
                    0 <= k < scores.len() && scores[k].map == id,
            kilobytes(self.planned(scores, maps, mem), maps) <= capped(
                available(self.policy(), mem),
            ),
    {
        broadcast use vstd::seq_lib::group_to_multiset_ensures;

        let budget = capped(available(self.policy(), mem)) as int;
        let given = candidates(scores);
        let sorted = arranged(given);
        let selected = self.selection(scores, maps, mem);
        let planned = self.planned(scores, maps, mem);
        self.lemma_plan_law(scores, maps, mem);
        assert forall|i: int, j: int|
            0 <= i < ids_of(given).len() && 0 <= j < ids_of(given).len() && i
                != j implies ids_of(given)[i] != ids_of(given)[j] by {
            assert(scores[i].map != scores[j].map);
        }
        lemma_item_order_total();
        given.lemma_sort_by_ensures(item_order());
        lemma_ids_of_permutation(sorted, given);
        lemma_no_duplicates_permutation(ids_of(given), ids_of(sorted));
        lemma_greedy_ids(sorted, maps, budget);
        lemma_greedy_within_budget(sorted, maps, budget);
        lemma_no_duplicates_permutation(ids_of(selected), planned);
        lemma_footprint_ids(selected, maps);
        lemma_kilobytes_permutation(planned, ids_of(selected), maps);
        assert forall|id: MapId| planned.contains(id) implies id.0 < maps.len() && exists|k: int|
            0 <= k < scores.len() && scores[k].map == id by {
            assert(ids_of(selected).contains(id));
            let s = choose|s: int| 0 <= s < ids_of(selected).len() && ids_of(selected)[s] == id;
            assert(selected[s].id == id);
            assert(ids_of(sorted).contains(id));
            assert(ids_of(given).contains(id));
            let k = choose|k: int| 0 <= k < ids_of(given).len() && ids_of(given)[k] == id;
            assert(scores[k].map == id);
        }
    }

    fn select(&self, prediction: &Prediction, stores: &Stores, memstat: &MemStat) -> (r: (
        Vec<MapScore>,
        u64,
    ))
        requires
            self.wf(),
        ensures
            r.0@.len() == self.selection(prediction.map_scores@, stores@.maps, *memstat).len(),
            forall|k: int|
                0 <= k < r.0@.len() ==> (#[trigger] r.0@[k]).map == self.selection(
                    prediction.map_scores@,
                    stores@.maps,
                    *memstat,
                )[k].id && r.0@[k].score == self.selection(
                    prediction.map_scores@,
                    stores@.maps,
                    *memstat,
                )[k].score,
            r.1 == total_length(
                self.selection(prediction.map_scores@, stores@.maps, *memstat),
                stores@.maps,
            ),
    {
        let scores = &prediction.map_scores;
        let mut items: Vec<SortItem> = Vec::new();
        let mut i: usize = 0;
        while i < scores.len()
            invariant
                i <= scores@.len(),
                items@.len() == i,
                forall|k: int|
                    0 <= k < i ==> (#[trigger] items@[k])@ == candidates(scores@)[k],
            decreases scores@.len() - i,
        {
            items.push(
                SortItem {
                    id: scores[i].map,
                    score: scores[i].score,
                    index: i,
                    key: SortKey::Unknown,
                },
            );
            i += 1;
        }
        assert(items_view(items@) =~= candidates(scores@));
        let order = arrange(&items);
        let ghost sorted = arranged(candidates(scores@));
        let ghost maps = stores@.maps;
        let budget = self.available_kb(memstat);
        let mut remaining = budget;
        let mut taken: Vec<MapScore> = Vec::new();
        let ghost mut taken_items: Seq<SortItemView> = Seq::empty();
        let mut total_bytes: u64 = 0;
        let mut k: usize = 0;
        proof {
            assert(sorted.skip(0) =~= sorted);
            assert(taken_items + greedy(sorted, maps, remaining as int) =~= greedy(
                sorted,
                maps,
                budget as int,
            ));
        }
        while k < order.len()
            invariant
                k <= order@.len(),
                order@.len() == items@.len(),
                sorted.len() == order@.len(),
                forall|j: int| 0 <= j < order@.len() ==> (#[trigger] order@[j]) < items@.len(),
                picked(items_view(items@), order@) == sorted,
                maps == stores@.maps,
                taken@.len() == taken_items.len(),
                forall|j: int|
                    0 <= j < taken@.len() ==> (#[trigger] taken@[j]).map == taken_items[j].id
                        && taken@[j].score == taken_items[j].score,
                taken_items + greedy(sorted.skip(k as int), maps, remaining as int) == greedy(
                    sorted,
                    maps,
                    budget as int,
                ),
                total_bytes == total_length(taken_items, maps),
            decreases order@.len() - k,
        {
            let item = &items[order[k]];
            let ghost view = sorted[k as int];
            proof {
                assert(sorted.skip(k as int)[0] == view);
                assert(sorted.skip(k as int).drop_first() =~= sorted.skip(k + 1));
                assert(item@ == view);
            }
            match stores.maps().get(item.id) {
                Some(map) => {
                    let map_kb = Self::kb(map.length);
                    if map_kb <= remaining {
                        let ghost before = taken_items;
                        remaining = remaining - map_kb;
                        total_bytes = total_bytes.saturating_add(map.length);
                        taken.push(MapScore { map: item.id, score: item.score });
                        proof {
                            taken_items = before.push(view);
                            assert(taken_items.drop_last() =~= before);
                            assert(before + (seq![view] + greedy(
                                sorted.skip(k + 1),
                                maps,
                                remaining as int,
                            )) =~= taken_items + greedy(
                                sorted.skip(k + 1),
                                maps,
                                remaining as int,
                            ));
                        }
                    }
                },
                None => {},
            }
            k += 1;
        }
        proof {
            assert(sorted.skip(k as int) =~= Seq::<SortItemView>::empty());
            assert(taken_items + Seq::<SortItemView>::empty() =~= taken_items);
        }
        (taken, total_bytes)
    }

    /// The maps that the plan for `prediction` would hold and of whose
    /// files the planner remembers nothing, in the order of selection.
    /// Where the strategy is `Unsorted` or `Path` no file needs looking up.
    pub fn unresolved(&self, prediction: &Prediction, stores: &Stores, memstat: &MemStat) -> (r:
        Vec<MapId>)
        requires
            self.wf(),
            stores.wf(),
            prediction.wf(),
        ensures
            r@ == (if self.strategy() == SortStrategy::Block || self.strategy()
                == SortStrategy::Inode {
                ids_of(self.selection(prediction.map_scores@, stores@.maps, *memstat)).filter(
                    |id: MapId| !self.cache().contains_key(id),
                )
            } else {
                Seq::<MapId>::empty()
            }),
    {
        let mut r: Vec<MapId> = Vec::new();
        match self.sort {
            SortStrategy::Block | SortStrategy::Inode => {},
            _ => {
                return r;
            },
        }
        let (taken, _total) = self.select(prediction, stores, memstat);
        let ghost selected = ids_of(
            self.selection(prediction.map_scores@, stores@.maps, *memstat),
        );
        let ghost unknown = |id: MapId| !self.cache().contains_key(id);
        let mut i: usize = 0;
        proof {
            reveal(Seq::filter);
            assert(selected.take(0).filter(unknown) =~= r@);
        }
        while i < taken.len()
            invariant
                i <= taken@.len(),
                self.wf(),
                taken@.len() == selected.len(),
                forall|k: int| 0 <= k < taken@.len() ==> (#[trigger] taken@[k]).map == selected[k],
                unknown == (|id: MapId| !self.cache().contains_key(id)),
                r@ == selected.take(i as int).filter(unknown),
            decreases taken@.len() - i,
        {
            let id = taken[i].map;
            proof {
                assert(selected.take(i + 1) =~= selected.take(i as int).push(id));
                selected.take(i as int).lemma_filter_push(id, unknown);
            }
            if self.sort_meta(id).is_none() {
                r.push(id);
            }
            i += 1;
        }
        proof {
            assert(selected.take(i as int) =~= selected);
        }
        r
    }

    /// The plan for `prediction`: the maps that `planned` gives, their
    /// bytes, and the bytes of the budget. Both sums stop at the largest
    /// 64-bit value. The plan holds no map twice, only maps that the
    /// prediction scores and the stores hold, and its maps fit into the
    /// budget.
    pub fn plan(&self, prediction: &Prediction, stores: &Stores, memstat: &MemStat) -> (r:
        PrefetchPlan)
        requires
            self.wf(),
            stores.wf(),
            prediction.wf(),
        ensures
            r.maps@ == self.planned(prediction.map_scores@, stores@.maps, *memstat),
            r.maps@.no_duplicates(),
            forall|id: MapId|
                r.maps@.contains(id) ==> stores@.has_map(id) && exists|k: int|
                    0 <= k < prediction.map_scores@.len() && prediction.map_scores@[k].map == id,
            kilobytes(r.maps@, stores@.maps) <= capped(available(self.policy(), *memstat)),
            r.total_bytes == total_length(
                self.selection(prediction.map_scores@, stores@.maps, *memstat),
                stores@.maps,
            ),
            r.budget_bytes == capped(capped(available(self.policy(), *memstat)) * 1024),
            footprint(
                self.selection(prediction.map_scores@, stores@.maps, *memstat),
                stores@.maps,
            ) <= capped(available(self.policy(), *memstat)),
    {
        let ghost selected = self.selection(prediction.map_scores@, stores@.maps, *memstat);
        let ghost maps = stores@.maps;
        let budget_kb = self.available_kb(memstat);
        let budget_bytes = if budget_kb > u64::MAX / KILOBYTE {
            u64::MAX
        } else {
            budget_kb * KILOBYTE
        };
        proof {
            lemma_greedy_within_budget(
                arranged(candidates(prediction.map_scores@)),
                maps,
                budget_kb as int,
            );
            self.lemma_plan_maps(prediction.map_scores@, maps, *memstat);
        }
        let (taken, total_bytes) = self.select(prediction, stores, memstat);
        let mut out: Vec<MapId> = Vec::new();
        match self.sort {
            SortStrategy::Unsorted => {
                let mut i: usize = 0;
                while i < taken.len()
                    invariant
                        i <= taken@.len(),
                        taken@.len() == selected.len(),
                        forall|k: int|
                            0 <= k < taken@.len() ==> (#[trigger] taken@[k]).map == selected[k].id,
                        out@.len() == i,
                        forall|k: int| 0 <= k < i ==> out@[k] == selected[k].id,
                    decreases taken@.len() - i,
                {
                    out.push(taken[i].map);
                    i += 1;
                }
                assert(out@ =~= ids_of(selected));
            },
            _ => {
                let ranks = self.ranks_of(stores, &taken);
                proof {
                    assert(paths_of(selected, maps) =~= Seq::new(
                        taken@.len(),
                        |k: int| path_of(taken@[k].map, maps),
                    ));
                }
                let mut items: Vec<SortItem> = Vec::new();
                let ghost wanted = keyed(selected, self.strategy(), maps, self.cache());
                let mut i: usize = 0;
                while i < taken.len()
                    invariant
                        i <= taken@.len(),
                        self.wf(),
                        stores.wf(),
                        maps == stores@.maps,
                        taken@.len() == selected.len(),
                        forall|k: int|
                            0 <= k < taken@.len() ==> (#[trigger] taken@[k]).map == selected[k].id
                                && taken@[k].score == selected[k].score,
                        wanted == keyed(selected, self.strategy(), maps, self.cache()),
                        self.strategy() == SortStrategy::Path ==> ranks@.len() == selected.len()
                            && forall|k: int|
                            0 <= k < ranks@.len() ==> (#[trigger] ranks@[k]) == rank_of(
                                paths_of(selected, maps),
                                k,
                            ),
                        items@.len() == i,
                        forall|k: int| 0 <= k < i ==> (#[trigger] items@[k])@ == wanted[k],
                    decreases taken@.len() - i,
                {
                    let id = taken[i].map;
                    let rank = if i < ranks.len() {
                        ranks[i]
                    } else {
                        0
                    };
                    let key = self.key_of(stores, id, rank);
                    items.push(SortItem { id, score: taken[i].score, index: i, key });
                    i += 1;
                }
                assert(items_view(items@) =~= wanted);
                let order = arrange(&items);
                let ghost sorted = arranged(wanted);
                let mut k: usize = 0;
                while k < order.len()
                    invariant
                        k <= order@.len(),
                        order@.len() == items@.len(),
                        forall|j: int|
                            0 <= j < order@.len() ==> (#[trigger] order@[j]) < items@.len(),
                        picked(items_view(items@), order@) == sorted,
                        out@.len() == k,
                        forall|j: int| 0 <= j < k ==> out@[j] == sorted[j].id,
                    decreases order@.len() - k,
                {
                    proof {
                        assert(sorted[k as int] == items_view(items@)[order@[k as int] as int]);
                    }
                    out.push(items[order[k]].id);
                    k += 1;
                }
                assert(out@ =~= ids_of(sorted));
            },
        }
        PrefetchPlan { maps: out, total_bytes, budget_bytes }
    }

    /// The rank of the path of each of the maps `taken` among their
    /// paths, where the strategy goes by paths; no ranks otherwise.
    fn ranks_of(&self, stores: &Stores, taken: &Vec<MapScore>) -> (r: Vec<usize>)
        requires
            self.wf(),
            stores.wf(),
        ensures
            self.strategy() == SortStrategy::Path ==> r@.len() == taken@.len() && forall|k: int|
                0 <= k < r@.len() ==> (#[trigger] r@[k]) == rank_of(
                    Seq::new(taken@.len(), |j: int| path_of(taken@[j].map, stores@.maps)),
                    k,
                ),
    {
        match self.sort {
            SortStrategy::Path => {},
            _ => {
                return Vec::new();
            },
        }
        let mut paths: Vec<String> = Vec::new();
        let mut i: usize = 0;
        while i < taken.len()
            invariant
                i <= taken@.len(),
                paths@.len() == i,
                forall|k: int|
                    0 <= k < i ==> (#[trigger] paths@[k])@ == path_of(taken@[k].map, stores@.maps),
            decreases taken@.len() - i,
        {
            let path = match stores.maps().get(taken[i].map) {
                Some(map) => map.path.clone(),
                None => String::new(),
            };
            paths.push(path);
            i += 1;
        }
        assert(path_views(paths@) =~= Seq::new(
            taken@.len(),
            |j: int| path_of(taken@[j].map, stores@.maps),
        ));
        path_ranks(&paths)
    }

    fn key_of(&self, stores: &Stores, id: MapId, rank: usize) -> (r: SortKey)
        requires
            self.wf(),
            stores.wf(),
        ensures
            r@ == key_for(self.strategy(), id, stores@.maps, self.cache(), rank),
    {
        let map = match stores.maps().get(id) {
            Some(map) => map,
            None => {
                return SortKey::Unknown;
            },
        };
        match self.sort {
            SortStrategy::Unsorted => SortKey::Unknown,
            SortStrategy::Path => SortKey::Path(rank),
            SortStrategy::Block => match self.sort_meta(id) {
                Some(Some(meta)) => SortKey::Block(meta.device, meta.block, map.offset),
                _ => SortKey::Unknown,
            },
            SortStrategy::Inode => match self.sort_meta(id) {
                Some(Some(meta)) => SortKey::Inode(meta.device, meta.inode, map.offset),
                _ => SortKey::Unknown,
            },
        }
    }
}

fn signed_share(percent: i32, amount: u64) -> (r: i128)
    requires
        -100 <= percent <= 100,
    ensures
        r == share_of(percent as int, amount as int),
        -0x1_0000_0000_0000_0000 < r < 0x1_0000_0000_0000_0000,
{
    let magnitude: u128 = if percent >= 0 {
        percent as u128
    } else {
        (-percent) as u128
    };
    assert(magnitude * amount <= 100 * 0xFFFF_FFFF_FFFF_FFFF) by (nonlinear_arith)
        requires
            magnitude <= 100,
            amount <= 0xFFFF_FFFF_FFFF_FFFF,
    ;
    let product: u128 = magnitude * (amount as u128);
    let part: u128 = product / 100;
    if percent >= 0 {
        part as i128
    } else {
        -(part as i128)
    }
}

} // verus!
