//! The order in which maps are selected and issued: higher score first,
//! then the key of the ordering strategy, then the position in the input.

use vstd::prelude::*;
use vstd::relations::{sorted_by, total_ordering};
use vstd::seq_lib::lemma_sorted_unique;
use crate::domain::MapId;

verus! {

/// What a sort key stands for.
pub ghost enum SortKeyView {
    /// No key is known for the map.
    Unknown,
    /// The rank of the path of the mapped file among the paths at hand.
    Path(usize),
    /// Device, block of the region on the device, offset of the region.
    Block(u64, u64, u64),
    /// Device, inode of the file, offset of the region.
    Inode(u64, u64, u64),
}

/// The key by which an ordering strategy places a map.
#[derive(Clone, Copy, Debug, PartialEq, Eq)]
pub enum SortKey {
    /// No key is known for the map.
    Unknown,
    /// The rank of the path of the mapped file among the paths at hand.
    Path(usize),
    /// Device, block of the region on the device, offset of the region.
    Block(u64, u64, u64),
    /// Device, inode of the file, offset of the region.
    Inode(u64, u64, u64),
}

impl View for SortKey {
    type V = SortKeyView;

    open spec fn view(&self) -> SortKeyView {
        match self {
            SortKey::Unknown => SortKeyView::Unknown,
            SortKey::Path(rank) => SortKeyView::Path(*rank),
            SortKey::Block(d, b, o) => SortKeyView::Block(*d, *b, *o),
            SortKey::Inode(d, i, o) => SortKeyView::Inode(*d, *i, *o),
        }
    }
}

/// What a sort item stands for.
pub ghost struct SortItemView {
    pub id: MapId,
    pub score: u32,
    pub index: int,
    pub key: SortKeyView,
}

/// A map with all that decides its place.
#[derive(Clone, Debug)]
pub struct SortItem {
    pub id: MapId,
    /// The score of the map as a number that grows with it.
    pub score: u32,
    /// Position of the map in the input.
    pub index: usize,
    pub key: SortKey,
}

impl View for SortItem {
    type V = SortItemView;

    open spec fn view(&self) -> SortItemView {
        SortItemView { id: self.id, score: self.score, index: self.index as int, key: self.key@ }
    }
}

/// What a list of sort items stands for.
pub open spec fn items_view(items: Seq<SortItem>) -> Seq<SortItemView> {
    items.map_values(|it: SortItem| it@)
}

/// `(a0, a1, a2)` is not after `(b0, b1, b2)`.
pub open spec fn triple_leq(a0: u64, a1: u64, a2: u64, b0: u64, b1: u64, b2: u64) -> bool {
    if a0 != b0 {
        a0 < b0
    } else if a1 != b1 {
        a1 < b1
    } else {
        a2 <= b2
    }
}

/// Place of the kind of a key among the kinds.
pub open spec fn kind_rank(k: SortKeyView) -> int {
    match k {
        SortKeyView::Unknown => 0,
        SortKeyView::Path(_) => 1,
        SortKeyView::Block(_, _, _) => 2,
        SortKeyView::Inode(_, _, _) => 3,
    }
}

/// `a` is not after `b` in the order of keys: an unknown key comes first,
/// and two keys of one kind compare by what they hold.
pub open spec fn key_leq(a: SortKeyView, b: SortKeyView) -> bool {
    if kind_rank(a) != kind_rank(b) {
        kind_rank(a) < kind_rank(b)
    } else {
        match (a, b) {
            (SortKeyView::Path(p), SortKeyView::Path(q)) => p <= q,
            (SortKeyView::Block(a0, a1, a2), SortKeyView::Block(b0, b1, b2)) => triple_leq(
                a0,
                a1,
                a2,
                b0,
                b1,
                b2,
            ),
            (SortKeyView::Inode(a0, a1, a2), SortKeyView::Inode(b0, b1, b2)) => triple_leq(
                a0,
                a1,
                a2,
                b0,
                b1,
                b2,
            ),
            _ => true,
        }
    }
}

/// `a` is not after `b`: the higher score comes first; of two maps with
/// one score the one with the smaller key; of two with one key the one
/// that stood first in the input.
pub open spec fn precedes(a: SortItemView, b: SortItemView) -> bool {
    if a.score != b.score {
        a.score > b.score
    } else if a.key != b.key {
        key_leq(a.key, b.key)
    } else if a.index != b.index {
        a.index < b.index
    } else {
        a.id.0 <= b.id.0
    }
}

/// The order of sort items as a relation.
pub open spec fn item_order() -> spec_fn(SortItemView, SortItemView) -> bool {
    |a: SortItemView, b: SortItemView| precedes(a, b)
}

proof fn lemma_key_order(a: SortKeyView, b: SortKeyView, c: SortKeyView)
    ensures
        key_leq(a, a),
        key_leq(a, b) && key_leq(b, a) ==> a == b,
        key_leq(a, b) && key_leq(b, c) ==> key_leq(a, c),
        key_leq(a, b) || key_leq(b, a),
{
}

/// The order of sort items is a total order.
pub proof fn lemma_item_order_total()
    ensures
        total_ordering(item_order()),
{
    let r = item_order();
    assert forall|x: SortItemView| #[trigger] r(x, x) by {
        lemma_key_order(x.key, x.key, x.key);
    }
    assert forall|x: SortItemView, y: SortItemView| #[trigger]
        r(x, y) && #[trigger] r(y, x) implies x == y by {
        lemma_key_order(x.key, y.key, y.key);
    }
    assert forall|x: SortItemView, y: SortItemView, z: SortItemView| #[trigger]
        r(x, y) && #[trigger] r(y, z) implies r(x, z) by {
        lemma_key_order(x.key, y.key, z.key);
    }
    assert forall|x: SortItemView, y: SortItemView| #[trigger] r(x, y) || #[trigger] r(y, x) by {
        lemma_key_order(x.key, y.key, y.key);
    }
}

/// The arrangement of `items` in their order.
pub open spec fn arranged(items: Seq<SortItemView>) -> Seq<SortItemView> {
    items.sort_by(item_order())
}

/// The arrangement of a list is the one list that is in order and holds
/// the same items as often: whatever has these two properties is the
/// arrangement.
pub proof fn lemma_arrangement_unique(items: Seq<SortItemView>, other: Seq<SortItemView>)
    requires
        sorted_by(other, item_order()),
        other.to_multiset() == items.to_multiset(),
    ensures
        other == arranged(items),
        sorted_by(arranged(items), item_order()),
        arranged(items).to_multiset() == items.to_multiset(),
{
    lemma_item_order_total();
    items.lemma_sort_by_ensures(item_order());
    lemma_sorted_unique(other, arranged(items), item_order());
}

/// Whether `a` is not after `b` in the order of keys.
pub fn key_not_after(a: &SortKey, b: &SortKey) -> (r: bool)
    ensures
        r == key_leq(a@, b@),
{
    match (a, b) {
        (SortKey::Unknown, _) => true,
        (SortKey::Path(_), SortKey::Unknown) => false,
        (SortKey::Path(p), SortKey::Path(q)) => *p <= *q,
        (SortKey::Path(_), _) => true,
        (SortKey::Block(a0, a1, a2), SortKey::Block(b0, b1, b2)) => {
            if *a0 != *b0 {
                *a0 < *b0
            } else if *a1 != *b1 {
                *a1 < *b1
            } else {
                *a2 <= *b2
            }
        },
        (SortKey::Block(_, _, _), SortKey::Inode(_, _, _)) => true,
        (SortKey::Block(_, _, _), _) => false,
        (SortKey::Inode(a0, a1, a2), SortKey::Inode(b0, b1, b2)) => {
            if *a0 != *b0 {
                *a0 < *b0
            } else if *a1 != *b1 {
                *a1 < *b1
            } else {
                *a2 <= *b2
            }
        },
        (SortKey::Inode(_, _, _), _) => false,
    }
}

/// Whether `a` is not after `b` in the order of sort items.
pub fn not_after(a: &SortItem, b: &SortItem) -> (r: bool)
    ensures
        r == precedes(a@, b@),
{
    if a.score != b.score {
        return a.score > b.score;
    }
    let forth = key_not_after(&a.key, &b.key);
    let back = key_not_after(&b.key, &a.key);
    proof {
        lemma_key_order(a.key@, b.key@, b.key@);
    }
    if !(forth && back) {
        return forth;
    }
    if a.index != b.index {
        a.index < b.index
    } else {
        a.id.0 <= b.id.0
    }
}

/// The items at the positions `order`, in that order.
pub open spec fn picked(items: Seq<SortItemView>, order: Seq<usize>) -> Seq<SortItemView> {
    order.map_values(|k: usize| items[k as int])
}

/// The positions of `items` in the order of the items: the item at the
/// first position returned comes first, and so on. Every position is
/// returned once.
pub fn arrange(items: &Vec<SortItem>) -> (order: Vec<usize>)
    ensures
        order@.len() == items@.len(),
        forall|k: int| 0 <= k < order@.len() ==> (#[trigger] order@[k]) < items@.len(),
        picked(items_view(items@), order@) == arranged(items_view(items@)),
{
    let ghost views = items_view(items@);
    let mut order: Vec<usize> = Vec::new();
    let mut i: usize = 0;
    proof {
        assert(picked(views, order@) =~= views.take(0));
    }
    while i < items.len()
        invariant
            i <= items@.len(),
            views == items_view(items@),
            order@.len() == i,
            forall|k: int| 0 <= k < order@.len() ==> (#[trigger] order@[k]) < i,
            sorted_by(picked(views, order@), item_order()),
            picked(views, order@).to_multiset() == views.take(i as int).to_multiset(),
        decreases items@.len() - i,
    {
        let mut p: usize = order.len();
        while p > 0 && !not_after(&items[order[p - 1]], &items[i])
            invariant
                p <= order@.len(),
                i < items@.len(),
                views == items_view(items@),
                order@.len() == i,
                forall|k: int| 0 <= k < order@.len() ==> (#[trigger] order@[k]) < i,
                forall|k: int|
                    p <= k < order@.len() ==> precedes(views[i as int], views[(#[trigger] order@[k]) as int]),
            decreases p,
        {
            proof {
                lemma_key_order(
                    views[order@[p - 1] as int].key,
                    views[i as int].key,
                    views[i as int].key,
                );
            }
            p -= 1;
        }
        let ghost before = order@;
        order.insert(p, i);
        proof {
            lemma_item_order_total();
            let x = views[i as int];
            let old_picked = picked(views, before);
            let new_picked = picked(views, order@);
            assert(new_picked =~= old_picked.insert(p as int, x));
            assert forall|a: int, b: int| 0 <= a < b < new_picked.len() implies #[trigger]
                item_order()(new_picked[a], new_picked[b]) by {
                if b < p {
                    assert(item_order()(old_picked[a], old_picked[b]));
                } else if b == p {
                    assert(item_order()(old_picked[a], old_picked[p - 1]));
                    assert(item_order()(old_picked[p - 1], x));
                } else if a < p {
                    assert(item_order()(old_picked[a], old_picked[b - 1]));
                } else if a == p {
                    assert(precedes(x, views[before[b - 1] as int]));
                } else {
                    assert(item_order()(old_picked[a - 1], old_picked[b - 1]));
                }
            }
            vstd::seq_lib::to_multiset_insert(old_picked, p as int, x);
            assert(views.take(i + 1) =~= views.take(i as int).push(x));
            vstd::seq_lib::to_multiset_build(views.take(i as int), x);
        }
        i += 1;
    }
    proof {
        assert(views.take(i as int) =~= views);
        lemma_arrangement_unique(views, picked(views, order@));
    }
    order
}

} // verus!
