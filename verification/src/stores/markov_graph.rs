//! The Markov edges, one for each unordered pair of executables.

use vstd::prelude::*;
use crate::domain::{ExeId, MarkovEdge, MarkovState};
use crate::stores::active_set::ActiveSet;
use crate::stores::assoc::{
    distinct_keys, has_key, lemma_filter_distinct, lemma_filter_member, lemma_push_distinct,
};
use crate::stores::edge_key::EdgeKey;

verus! {

/// The edges in the order in which they were created.
#[derive(Debug)]
pub struct MarkovGraph {
    edges: Vec<(EdgeKey, MarkovEdge)>,
}

/// The edges whose two executables are both keys of `active`.
pub open spec fn within(active: Map<ExeId, u64>) -> spec_fn((EdgeKey, MarkovEdge)) -> bool {
    |e: (EdgeKey, MarkovEdge)| active.contains_key(e.0.0) && active.contains_key(e.0.1)
}

/// Every key joins two distinct executables, the smaller identifier first.
pub open spec fn proper_keys(edges: Seq<(EdgeKey, MarkovEdge)>) -> bool {
    forall|i: int| 0 <= i < edges.len() ==> (#[trigger] edges[i]).0.proper()
}

/// Position of the edge with key `key`, if there is one.
pub open spec fn edge_position(edges: Seq<(EdgeKey, MarkovEdge)>, key: EdgeKey) -> Option<int> {
    if has_key(edges, key) {
        Some(choose|i: int| 0 <= i < edges.len() && edges[i].0 == key)
    } else {
        None
    }
}

/// With distinct keys, the position of a key is where it stands.
pub proof fn lemma_edge_position(edges: Seq<(EdgeKey, MarkovEdge)>, i: int)
    requires
        distinct_keys(edges),
        0 <= i < edges.len(),
    ensures
        edge_position(edges, edges[i].0) == Some(i),
{
}

impl View for MarkovGraph {
    type V = Seq<(EdgeKey, MarkovEdge)>;

    closed spec fn view(&self) -> Seq<(EdgeKey, MarkovEdge)> {
        self.edges@
    }
}

impl MarkovGraph {
    /// There is at most one edge for each unordered pair of distinct
    /// executables, and none from an executable to itself: every key holds
    /// two distinct identifiers, the smaller first, and no key stands twice.
    pub open spec fn wf(&self) -> bool {
        distinct_keys(self@) && proper_keys(self@)
    }

    /// Whether the pair `key` has an edge.
    pub open spec fn has_edge(&self, key: EdgeKey) -> bool {
        has_key(self@, key)
    }

    /// The graph without edges.
    pub fn new() -> (r: Self)
        ensures
            r.wf(),
            r@ == Seq::<(EdgeKey, MarkovEdge)>::empty(),
    {
        MarkovGraph { edges: Vec::new() }
    }

    /// Number of edges.
    pub fn len(&self) -> (r: usize)
        ensures
            r == self@.len(),
    {
        self.edges.len()
    }

    /// The key and the edge at position `i`.
    pub fn entry(&self, i: usize) -> (r: (EdgeKey, MarkovEdge))
        requires
            i < self@.len(),
        ensures
            r == self@[i as int],
    {
        self.edges[i]
    }

    /// Position of the edge of the pair `key`, if it has one.
    pub fn position(&self, key: EdgeKey) -> (r: Option<usize>)
        requires
            self.wf(),
        ensures
            match r {
                Some(i) => edge_position(self@, key) == Some(i as int) && i < self@.len()
                    && self@[i as int].0 == key,
                None => !self.has_edge(key) && edge_position(self@, key) is None,
            },
    {
        let mut i: usize = 0;
        while i < self.edges.len()
            invariant
                i <= self.edges@.len(),
                self.wf(),
                forall|j: int| 0 <= j < i ==> self.edges@[j].0 != key,
            decreases self.edges@.len() - i,
        {
            let k = self.edges[i].0;
            if k.0 == key.0 && k.1 == key.1 {
                proof {
                    lemma_edge_position(self@, i as int);
                }
                return Some(i);
            }
            i += 1;
        }
        None
    }

    /// The edge of the pair `key`, if it has one.
    pub fn get(&self, key: EdgeKey) -> (r: Option<MarkovEdge>)
        requires
            self.wf(),
        ensures
            r == (match edge_position(self@, key) {
                Some(i) => Some(self@[i].1),
                None => None,
            }),
    {
        match self.position(key) {
            Some(i) => Some(self.edges[i].1),
            None => None,
        }
    }

    /// The edge of the pair `key` for changing it in place, if it has one.
    /// The key of the edge stays as it is whatever the caller writes.
    pub fn get_mut(&mut self, key: EdgeKey) -> (r: Option<&mut MarkovEdge>)
        requires
            old(self).wf(),
        ensures
            match r {
                Some(edge) => {
                    &&& edge_position(old(self)@, key) matches Some(i)
                    &&& *edge == old(self)@[i].1
                    &&& final(self)@ == old(self)@.update(i, (key, *final(edge)))
                },
                None => edge_position(old(self)@, key) is None && final(self)@ == old(self)@,
            },
    {
        match self.position(key) {
            Some(i) => Some(&mut self.edges[i].1),
            None => None,
        }
    }

    /// Puts `edge` in the place of the edge at position `i`, under the same key.
    pub fn set_edge(&mut self, i: usize, edge: MarkovEdge)
        requires
            i < old(self)@.len(),
        ensures
            final(self)@ == old(self)@.update(i as int, (old(self)@[i as int].0, edge)),
            old(self).wf() ==> final(self).wf(),
    {
        let key = self.edges[i].0;
        self.edges.set(i, (key, edge));
        proof {
            if old(self).wf() {
                lemma_same_keys(old(self)@, self@);
            }
        }
    }

    /// Whether `ensure_edge` creates an edge for `a` and `b`: the two are
    /// distinct, and the pair has no edge yet.
    pub open spec fn lacks_edge(edges: Seq<(EdgeKey, MarkovEdge)>, a: ExeId, b: ExeId) -> bool {
        a != b && !has_key(edges, EdgeKey::of(a, b))
    }

    /// What `ensure_edge` leaves for `a` and `b`.
    pub open spec fn ensured(
        edges: Seq<(EdgeKey, MarkovEdge)>,
        a: ExeId,
        b: ExeId,
        now: u64,
        state: MarkovState,
    ) -> Seq<(EdgeKey, MarkovEdge)> {
        if Self::lacks_edge(edges, a, b) {
            edges.push((EdgeKey::of(a, b), MarkovEdge::fresh(state, now)))
        } else {
            edges
        }
    }

    /// Makes sure that the pair `{a, b}` has an edge, and says whether one
    /// was created. An edge from an executable to itself is rejected:
    /// nothing is created and the graph stays as it is. A new edge starts
    /// at `now` in `state` with nothing learnt, under the key of the pair;
    /// an edge that is there stays as it is.
    pub fn ensure_edge(&mut self, a: ExeId, b: ExeId, now: u64, state: MarkovState) -> (r: bool)
        requires
            old(self).wf(),
        ensures
            final(self).wf(),
            r == Self::lacks_edge(old(self)@, a, b),
            final(self)@ == Self::ensured(old(self)@, a, b, now, state),
            a == b ==> final(self)@ == old(self)@,
            a != b ==> final(self).has_edge(EdgeKey::of(a, b)),
    {
        if a.0 == b.0 {
            return false;
        }
        let key = EdgeKey::new(a, b);
        if self.position(key).is_some() {
            return false;
        }
        proof {
            lemma_push_distinct(self@, (key, MarkovEdge::fresh(state, now)));
        }
        self.edges.push((key, MarkovEdge::new(state, now)));
        assert(self@[self@.len() - 1].0 == key);
        true
    }

    /// The keys and edges, in the order in which the edges were created.
    pub fn iter(&self) -> (r: Vec<(EdgeKey, MarkovEdge)>)
        ensures
            r@ == self@,
    {
        let mut r: Vec<(EdgeKey, MarkovEdge)> = Vec::new();
        let mut i: usize = 0;
        while i < self.edges.len()
            invariant
                i <= self.edges@.len(),
                r@ == self.edges@.take(i as int),
            decreases self.edges@.len() - i,
        {
            r.push(self.edges[i]);
            assert(self.edges@.take(i + 1) =~= self.edges@.take(i as int).push(self.edges@[i as int]));
            i += 1;
        }
        assert(self.edges@.take(i as int) =~= self.edges@);
        r
    }

    /// Drops every edge of which an executable is not in `active`. The
    /// edges that stay keep their order.
    pub fn prune_inactive(&mut self, active: &ActiveSet)
        requires
            old(self).wf(),
            active.wf(),
        ensures
            final(self).wf(),
            final(self)@ == old(self)@.filter(within(active@)),
    {
        let mut kept: Vec<(EdgeKey, MarkovEdge)> = Vec::new();
        let mut i: usize = 0;
        proof {
            reveal(Seq::filter);
            assert(self.edges@.take(0).filter(within(active@)) =~= kept@);
        }
        while i < self.edges.len()
            invariant
                i <= self.edges@.len(),
                self.edges@ == old(self)@,
                active.wf(),
                kept@ == self.edges@.take(i as int).filter(within(active@)),
            decreases self.edges@.len() - i,
        {
            let e = self.edges[i];
            proof {
                let head = self.edges@.take(i as int);
                assert(self.edges@.take(i + 1) =~= head.push(e));
                head.lemma_filter_push(e, within(active@));
            }
            if active.contains(e.0.0) && active.contains(e.0.1) {
                kept.push(e);
            }
            i += 1;
        }
        proof {
            assert(self.edges@.take(i as int) =~= self.edges@);
            lemma_filter_distinct(old(self)@, within(active@));
            assert forall|k: int| 0 <= k < kept@.len() implies (#[trigger] kept@[k]).0.proper() by {
                assert(kept@.contains(kept@[k]));
                lemma_filter_member(old(self)@, within(active@), kept@[k]);
                let j = choose|j: int| 0 <= j < old(self)@.len() && old(self)@[j] == kept@[k];
                assert(old(self)@[j].0.proper());
            }
        }
        self.edges = kept;
    }
}

/// Changing edges under their keys keeps the keys distinct and proper.
pub proof fn lemma_same_keys(
    before: Seq<(EdgeKey, MarkovEdge)>,
    after: Seq<(EdgeKey, MarkovEdge)>,
)
    requires
        distinct_keys(before),
        proper_keys(before),
        before.len() == after.len(),
        forall|i: int| 0 <= i < before.len() ==> before[i].0 == after[i].0,
    ensures
        distinct_keys(after),
        proper_keys(after),
        forall|key: EdgeKey| has_key(after, key) == has_key(before, key),
        forall|key: EdgeKey| edge_position(after, key) == edge_position(before, key),
{
    assert forall|i: int, j: int|
        0 <= i < after.len() && 0 <= j < after.len() && i != j implies after[i].0
        != after[j].0 by {
        assert(before[i].0 != before[j].0);
    }
    assert forall|i: int| 0 <= i < after.len() implies (#[trigger] after[i]).0.proper() by {
        assert(before[i].0.proper());
    }
    assert forall|key: EdgeKey|
        has_key(after, key) == has_key(before, key) && edge_position(after, key)
            == edge_position(before, key) by {
        if has_key(after, key) {
            let i = choose|i: int| 0 <= i < after.len() && after[i].0 == key;
            assert(before[i].0 == key);
            lemma_edge_position(before, i);
            lemma_edge_position(after, i);
        } else if has_key(before, key) {
            let i = choose|i: int| 0 <= i < before.len() && before[i].0 == key;
            assert(after[i].0 == key);
        }
    }
}

/// A graph never holds both orderings of a pair: of the keys `(a, b)` and
/// `(b, a)` of two distinct executables at most one has an edge.
pub proof fn lemma_never_both_orderings(graph: MarkovGraph, a: ExeId, b: ExeId)
    requires
        graph.wf(),
        a != b,
    ensures
        !(graph.has_edge(EdgeKey(a, b)) && graph.has_edge(EdgeKey(b, a))),
{
    if graph.has_edge(EdgeKey(a, b)) && graph.has_edge(EdgeKey(b, a)) {
        let i = choose|i: int| 0 <= i < graph@.len() && graph@[i].0 == EdgeKey(a, b);
        let j = choose|j: int| 0 <= j < graph@.len() && graph@[j].0 == EdgeKey(b, a);
        assert(graph@[i].0.proper());
        assert(graph@[j].0.proper());
    }
}

/// A graph holds no edge from an executable to itself.
pub proof fn lemma_no_self_edge(graph: MarkovGraph, a: ExeId)
    requires
        graph.wf(),
    ensures
        !graph.has_edge(EdgeKey(a, a)),
        !graph.has_edge(EdgeKey::of(a, a)),
{
    if graph.has_edge(EdgeKey(a, a)) {
        let i = choose|i: int| 0 <= i < graph@.len() && graph@[i].0 == EdgeKey(a, a);
        assert(graph@[i].0.proper());
    }
}

} // verus!
