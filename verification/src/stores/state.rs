//! The stores taken together: every record of the model and the relations
//! between the records.

use vstd::prelude::*;
use crate::domain::{
    capped_sum, ExeId, ExeKey, ExeView, MapId, MapKeyView, MapSegment, MapSegmentView,
    MarkovEdge, MarkovState, Transition,
};
use crate::stores::active_set::ActiveSet;
use crate::stores::assoc::{distinct_keys, has_key, lemma_filter_member};
use crate::stores::edge_key::EdgeKey;
use crate::stores::exe_map_index::ExeMapIndex;
use crate::stores::markov_graph::{
    proper_keys, edge_position, lemma_same_keys, within, MarkovGraph,
};
use crate::stores::records::{
    distinct_map_keys, distinct_paths, exe_slot, lemma_exe_slot, lemma_map_slot,
    lemma_same_paths, map_slot, ExeStore, MapStore,
};

verus! {

/// An executable that was refused for its size, and the size it had then.
#[derive(Clone, Debug, PartialEq, Eq)]
pub struct BadExe {
    pub path: String,
    /// Bytes that the executable had mapped when it was refused.
    pub size: u64,
}

/// What the stores stand for.
pub ghost struct StoresView {
    /// The executables; the identifier of each is its position.
    pub exes: Seq<ExeView>,
    /// The map segments; the identifier of each is its position.
    pub maps: Seq<MapSegmentView>,
    /// Which executable maps which segment.
    pub exe_maps: Seq<(ExeId, MapId)>,
    /// The Markov edges.
    pub markov: Seq<(EdgeKey, MarkovEdge)>,
    /// The active executables, each with the model time it was last seen.
    pub active: Map<ExeId, u64>,
    /// The refused executables, each with its size.
    pub bad_exes: Seq<(Seq<char>, u64)>,
    /// The logical clock of the model, in seconds.
    pub model_time: u64,
    /// The model time up to which running time has been accounted.
    pub last_accounting_time: u64,
}

impl StoresView {
    /// Whether `id` names an executable.
    pub open spec fn has_exe(self, id: ExeId) -> bool {
        id.0 < self.exes.len()
    }

    /// Whether `id` names a map segment.
    pub open spec fn has_map(self, id: MapId) -> bool {
        id.0 < self.maps.len()
    }

    /// Whether `path` is the path of a refused executable.
    pub open spec fn is_bad(self, path: Seq<char>) -> bool {
        exists|i: int| 0 <= i < self.bad_exes.len() && self.bad_exes[i].0 == path
    }

    /// Whether the executable `id` exists and runs.
    pub open spec fn runs(self, id: ExeId) -> bool {
        self.has_exe(id) && self.exes[id.0 as int].running
    }

    /// The invariants that hold of the stores at all times:
    /// path and identifier of an executable determine each other, and so do
    /// key and identifier of a segment; every pair of the incidence relation
    /// stands once and names an executable and a segment that exist; every
    /// Markov edge has a key that stands once, holds the smaller identifier
    /// first, and joins two distinct executables that exist; every active
    /// executable exists.
    pub open spec fn valid(self) -> bool {
        &&& distinct_paths(self.exes)
        &&& self.exes.len() <= usize::MAX
        &&& distinct_map_keys(self.maps)
        &&& self.maps.len() <= usize::MAX
        &&& self.exe_maps.no_duplicates()
        &&& forall|i: int|
            0 <= i < self.exe_maps.len() ==> self.has_exe((#[trigger] self.exe_maps[i]).0)
                && self.has_map(self.exe_maps[i].1)
        &&& distinct_keys(self.markov)
        &&& proper_keys(self.markov)
        &&& forall|i: int|
            0 <= i < self.markov.len() ==> (#[trigger] self.markov[i]).0.0 != self.markov[i].0.1
                && self.has_exe(self.markov[i].0.1)
        &&& forall|id: ExeId| #[trigger] self.active.contains_key(id) ==> self.has_exe(id)
    }

    /// Both executables of every Markov edge are active.
    pub open spec fn edges_active(self) -> bool {
        forall|i: int|
            0 <= i < self.markov.len() ==> self.active.contains_key(
                (#[trigger] self.markov[i]).0.0,
            ) && self.active.contains_key(self.markov[i].0.1)
    }

    /// No time that the stores hold lies after the clock of the model: the
    /// running time of an executable is within the time accounted so far,
    /// which is within the model time, and so is the time at which an
    /// executable was last seen.
    pub open spec fn times_consistent(self) -> bool {
        &&& self.last_accounting_time <= self.model_time
        &&& forall|i: int|
            0 <= i < self.exes.len() ==> (#[trigger] self.exes[i]).total_running_time
                <= self.last_accounting_time
        &&& forall|i: int|
            0 <= i < self.exes.len() ==> ((#[trigger] self.exes[i]).last_seen_time matches Some(t)
                ==> t <= self.model_time)
    }

    /// The stores that hold nothing, at model time zero.
    pub open spec fn empty() -> StoresView {
        StoresView {
            exes: Seq::empty(),
            maps: Seq::empty(),
            exe_maps: Seq::empty(),
            markov: Seq::empty(),
            active: Map::empty(),
            bad_exes: Seq::empty(),
            model_time: 0,
            last_accounting_time: 0,
        }
    }

    /// The stores with `exe` in the slot `id`.
    pub open spec fn with_exe(self, id: ExeId, exe: ExeView) -> StoresView {
        StoresView { exes: self.exes.update(id.0 as int, exe), ..self }
    }

    /// The stores with `edge` in the place of the edge at position `i`.
    pub open spec fn with_edge(self, i: int, edge: MarkovEdge) -> StoresView {
        StoresView { markov: self.markov.update(i, (self.markov[i].0, edge)), ..self }
    }

    /// What `ensure_exe` leaves.
    pub open spec fn ensure_exe(self, path: Seq<char>) -> StoresView {
        StoresView { exes: ExeStore::ensured(self.exes, path).0, ..self }
    }

    /// What `ensure_map` leaves.
    pub open spec fn ensure_map(self, segment: MapSegmentView) -> StoresView {
        StoresView { maps: MapStore::ensured(self.maps, segment).0, ..self }
    }

    /// What `attach_map` leaves.
    pub open spec fn attach_map(self, exe: ExeId, map: MapId) -> StoresView {
        if self.has_exe(exe) && self.has_map(map) && !self.exe_maps.contains((exe, map)) {
            StoresView { exe_maps: self.exe_maps.push((exe, map)), ..self }
        } else {
            self
        }
    }

    /// Whether `ensure_markov_edge` creates an edge for `a` and `b`.
    pub open spec fn lacks_edge(self, a: ExeId, b: ExeId) -> bool {
        a != b && self.has_exe(a) && self.has_exe(b) && !has_key(self.markov, EdgeKey::of(a, b))
    }

    /// What `ensure_markov_edge` leaves.
    pub open spec fn ensure_markov_edge(
        self,
        a: ExeId,
        b: ExeId,
        now: u64,
        state: MarkovState,
    ) -> StoresView {
        if self.lacks_edge(a, b) {
            StoresView {
                markov: self.markov.push((EdgeKey::of(a, b), MarkovEdge::fresh(state, now))),
                ..self
            }
        } else {
            self
        }
    }

    /// What `mark_seen` leaves.
    pub open spec fn mark_seen(self, id: ExeId, now: u64) -> StoresView {
        if self.has_exe(id) {
            self.with_exe(
                id,
                ExeView { running: true, last_seen_time: Some(now), ..self.exes[id.0 as int] },
            )
        } else {
            self
        }
    }

    /// What `set_running` leaves.
    pub open spec fn set_running(self, id: ExeId, running: bool) -> StoresView {
        if self.has_exe(id) {
            self.with_exe(id, ExeView { running, ..self.exes[id.0 as int] })
        } else {
            self
        }
    }

    /// What `set_change_time` leaves.
    pub open spec fn set_change_time(self, id: ExeId, now: u64) -> StoresView {
        if self.has_exe(id) {
            self.with_exe(id, ExeView { change_time: now, ..self.exes[id.0 as int] })
        } else {
            self
        }
    }

    /// What `add_running_time` leaves.
    pub open spec fn add_running_time(self, id: ExeId, span: u64) -> StoresView {
        if self.has_exe(id) {
            self.with_exe(
                id,
                ExeView {
                    total_running_time: capped_sum(
                        self.exes[id.0 as int].total_running_time,
                        span,
                    ),
                    ..self.exes[id.0 as int]
                },
            )
        } else {
            self
        }
    }

    /// What `restore_exe` leaves.
    pub open spec fn restore_exe(
        self,
        id: ExeId,
        total_running_time: u64,
        last_seen_time: Option<u64>,
    ) -> StoresView {
        if self.has_exe(id) {
            self.with_exe(
                id,
                ExeView { total_running_time, last_seen_time, ..self.exes[id.0 as int] },
            )
        } else {
            self
        }
    }

    /// What `touch_active` leaves.
    pub open spec fn touch_active(self, id: ExeId, now: u64) -> StoresView {
        if self.has_exe(id) {
            StoresView { active: self.active.insert(id, now), ..self }
        } else {
            self
        }
    }

    /// What `prune_active` leaves.
    pub open spec fn prune_active(self, now: u64, window: u64) -> StoresView {
        let active = ActiveSet::pruned(self.active, now, window);
        StoresView { active, markov: self.markov.filter(within(active)), ..self }
    }

    /// What `prune_edges` leaves.
    pub open spec fn prune_edges(self) -> StoresView {
        StoresView { markov: self.markov.filter(within(self.active)), ..self }
    }

    /// The joint running state of the two executables of `key`.
    pub open spec fn state_of(self, key: EdgeKey) -> MarkovState {
        MarkovState::of(self.runs(key.0), self.runs(key.1))
    }

    /// What `settle_edge` leaves.
    pub open spec fn settle_edge(self, i: int, now: u64) -> StoresView {
        if 0 <= i < self.markov.len() {
            self.with_edge(i, self.markov[i].1.moved(self.state_of(self.markov[i].0), now))
        } else {
            self
        }
    }

    /// What `account_edge` leaves.
    pub open spec fn account_edge(self, i: int, span: u64) -> StoresView {
        if 0 <= i < self.markov.len() {
            self.with_edge(i, self.markov[i].1.accounted(span))
        } else {
            self
        }
    }

    /// What `set_edge_statistics` leaves.
    pub open spec fn set_edge_statistics(
        self,
        key: EdgeKey,
        time_to_leave: [u32; 4],
        transition_prob: [[u32; 4]; 4],
    ) -> StoresView {
        match edge_position(self.markov, key) {
            Some(i) => self.with_edge(
                i,
                MarkovEdge { time_to_leave, transition_prob, ..self.markov[i].1 },
            ),
            None => self,
        }
    }

    /// What `restore_edge` leaves.
    pub open spec fn restore_edge(
        self,
        key: EdgeKey,
        time_to_leave: [u32; 4],
        transition_prob: [[u32; 4]; 4],
        both_running_time: u64,
    ) -> StoresView {
        match edge_position(self.markov, key) {
            Some(i) => self.with_edge(
                i,
                MarkovEdge {
                    time_to_leave,
                    transition_prob,
                    both_running_time,
                    ..self.markov[i].1
                },
            ),
            None => self,
        }
    }
}

/// `after` holds every executable and every map segment of `before` in
/// its slot and under its identity, and shows the same model time.
pub open spec fn extends(before: StoresView, after: StoresView) -> bool {
    &&& after.model_time == before.model_time
    &&& after.exes.len() >= before.exes.len()
    &&& forall|i: int|
        0 <= i < before.exes.len() ==> (#[trigger] after.exes[i]).path == before.exes[i].path
    &&& after.maps.len() >= before.maps.len()
    &&& forall|i: int|
        0 <= i < before.maps.len() ==> (#[trigger] after.maps[i]).key() == before.maps[i].key()
}

/// Identifiers are stable: as long as records are only added, and none
/// changes its identity, the identifier that a path or a key resolves to
/// stays the same on every later lookup.
pub proof fn lemma_identifiers_stable(before: StoresView, after: StoresView)
    requires
        before.valid(),
        after.valid(),
        extends(before, after),
    ensures
        forall|path: Seq<char>|
            exe_slot(before.exes, path) is Some ==> exe_slot(after.exes, path) == exe_slot(
                before.exes,
                path,
            ),
        forall|key: MapKeyView|
            map_slot(before.maps, key) is Some ==> map_slot(after.maps, key) == map_slot(
                before.maps,
                key,
            ),
{
    assert forall|path: Seq<char>| exe_slot(before.exes, path) is Some implies exe_slot(
        after.exes,
        path,
    ) == exe_slot(before.exes, path) by {
        let i = choose|i: int| 0 <= i < before.exes.len() && before.exes[i].path == path;
        assert(after.exes[i].path == path);
        lemma_exe_slot(before.exes, i);
        lemma_exe_slot(after.exes, i);
    }
    assert forall|key: MapKeyView| map_slot(before.maps, key) is Some implies map_slot(
        after.maps,
        key,
    ) == map_slot(before.maps, key) by {
        let i = choose|i: int| 0 <= i < before.maps.len() && before.maps[i].key() == key;
        assert(after.maps[i].key() == key);
        lemma_map_slot(before.maps, i);
        lemma_map_slot(after.maps, i);
    }
}

/// What keeps a model valid: records are only added or changed under
/// their identity, and whatever names an executable or a segment names one
/// that was named before or that exists.
pub proof fn lemma_still_valid(before: StoresView, after: StoresView)
    requires
        before.valid(),
        distinct_paths(after.exes),
        after.exes.len() <= usize::MAX,
        after.exes.len() >= before.exes.len(),
        distinct_map_keys(after.maps),
        after.maps.len() <= usize::MAX,
        after.maps.len() >= before.maps.len(),
        after.exe_maps.no_duplicates(),
        forall|i: int|
            0 <= i < after.exe_maps.len() ==> before.exe_maps.contains(
                #[trigger] after.exe_maps[i],
            ) || (after.has_exe(after.exe_maps[i].0) && after.has_map(after.exe_maps[i].1)),
        distinct_keys(after.markov),
        proper_keys(after.markov),
        forall|i: int|
            0 <= i < after.markov.len() ==> has_key(before.markov, (#[trigger] after.markov[i]).0)
                || (after.markov[i].0.0 != after.markov[i].0.1 && after.has_exe(
                after.markov[i].0.0,
            ) && after.has_exe(after.markov[i].0.1)),
        forall|id: ExeId| #[trigger]
            after.active.contains_key(id) ==> before.active.contains_key(id) || after.has_exe(id),
    ensures
        after.valid(),
{
    assert forall|i: int| 0 <= i < after.exe_maps.len() implies after.has_exe(
        (#[trigger] after.exe_maps[i]).0,
    ) && after.has_map(after.exe_maps[i].1) by {
        let p = after.exe_maps[i];
        if before.exe_maps.contains(p) {
            let j = choose|j: int| 0 <= j < before.exe_maps.len() && before.exe_maps[j] == p;
            assert(before.has_exe(before.exe_maps[j].0));
        }
    }
    assert forall|i: int| 0 <= i < after.markov.len() implies (#[trigger] after.markov[i]).0.0
        != after.markov[i].0.1 && after.has_exe(after.markov[i].0.1) by {
        let key = after.markov[i].0;
        if has_key(before.markov, key) {
            let j = choose|j: int| 0 <= j < before.markov.len() && before.markov[j].0 == key;
            assert(before.markov[j].0.0 != before.markov[j].0.1);
        }
    }
    assert forall|id: ExeId| #[trigger] after.active.contains_key(id) implies after.has_exe(
        id,
    ) by {
        if before.active.contains_key(id) {
            assert(before.has_exe(id));
        }
    }
}

/// The stores of the model. They own every record; the other components
/// read them and change them through the operations below, each of which
/// keeps the invariants.
#[derive(Debug)]
pub struct Stores {
    exes: ExeStore,
    maps: MapStore,
    exe_maps: ExeMapIndex,
    markov: MarkovGraph,
    active: ActiveSet,
    bad_exes: Vec<BadExe>,
    model_time: u64,
    last_accounting_time: u64,
}

impl View for Stores {
    type V = StoresView;

    closed spec fn view(&self) -> StoresView {
        StoresView {
            exes: self.exes@,
            maps: self.maps@,
            exe_maps: self.exe_maps@,
            markov: self.markov@,
            active: self.active@,
            bad_exes: Seq::new(
                self.bad_exes@.len(),
                |i: int| (self.bad_exes@[i].path@, self.bad_exes@[i].size),
            ),
            model_time: self.model_time,
            last_accounting_time: self.last_accounting_time,
        }
    }
}

impl Stores {
    /// The stores are well formed: what they stand for is valid.
    pub closed spec fn wf(&self) -> bool {
        self@.valid() && self.active.wf()
    }

    /// Well-formed stores stand for a valid model.
    pub proof fn lemma_valid(&self)
        requires
            self.wf(),
        ensures
            self@.valid(),
    {
    }

    /// The stores that hold nothing, at model time zero.
    pub fn new() -> (r: Self)
        ensures
            r.wf(),
            r@ == StoresView::empty(),
            r@.edges_active(),
            r@.times_consistent(),
    {
        let r = Stores {
            exes: ExeStore::new(),
            maps: MapStore::new(),
            exe_maps: ExeMapIndex::new(),
            markov: MarkovGraph::new(),
            active: ActiveSet::new(),
            bad_exes: Vec::new(),
            model_time: 0,
            last_accounting_time: 0,
        };
        assert(r@.bad_exes =~= Seq::<(Seq<char>, u64)>::empty());
        r
    }

    /// The executables.
    pub fn exes(&self) -> (r: &ExeStore)
        ensures
            r@ == self@.exes,
            self.wf() ==> r.wf(),
    {
        &self.exes
    }

    /// The map segments.
    pub fn maps(&self) -> (r: &MapStore)
        ensures
            r@ == self@.maps,
            self.wf() ==> r.wf(),
    {
        &self.maps
    }

    /// The incidence relation.
    pub fn exe_maps(&self) -> (r: &ExeMapIndex)
        ensures
            r@ == self@.exe_maps,
            self.wf() ==> r.wf(),
    {
        &self.exe_maps
    }

    /// The Markov edges.
    pub fn markov(&self) -> (r: &MarkovGraph)
        ensures
            r@ == self@.markov,
            self.wf() ==> r.wf(),
    {
        &self.markov
    }

    /// The active set.
    pub fn active(&self) -> (r: &ActiveSet)
        ensures
            r@ == self@.active,
            self.wf() ==> r.wf(),
    {
        &self.active
    }

    /// The logical clock of the model, in seconds.
    pub fn model_time(&self) -> (r: u64)
        ensures
            r == self@.model_time,
    {
        self.model_time
    }

    /// The model time up to which running time has been accounted.
    pub fn last_accounting_time(&self) -> (r: u64)
        ensures
            r == self@.last_accounting_time,
    {
        self.last_accounting_time
    }

    /// Sets the clock of the model.
    pub fn set_model_time(&mut self, model_time: u64)
        requires
            old(self).wf(),
        ensures
            final(self).wf(),
            final(self)@ == (StoresView { model_time, ..old(self)@ }),
    {
        self.model_time = model_time;
    }

    /// Sets the model time up to which running time has been accounted.
    pub fn set_last_accounting_time(&mut self, last_accounting_time: u64)
        requires
            old(self).wf(),
        ensures
            final(self).wf(),
            final(self)@ == (StoresView { last_accounting_time, ..old(self)@ }),
    {
        self.last_accounting_time = last_accounting_time;
    }

    /// Number of refused executables.
    pub fn bad_exe_count(&self) -> (r: usize)
        ensures
            r == self@.bad_exes.len(),
    {
        self.bad_exes.len()
    }

    /// The refused executable at position `i`.
    pub fn bad_exe(&self, i: usize) -> (r: &BadExe)
        requires
            i < self@.bad_exes.len(),
        ensures
            (r.path@, r.size) == self@.bad_exes[i as int],
    {
        &self.bad_exes[i]
    }

    /// Whether `path` is the path of a refused executable.
    pub fn is_bad_exe(&self, path: &String) -> (r: bool)
        ensures
            r == self@.is_bad(path@),
    {
        let mut i: usize = 0;
        while i < self.bad_exes.len()
            invariant
                i <= self.bad_exes@.len(),
                forall|j: int| 0 <= j < i ==> self@.bad_exes[j].0 != path@,
            decreases self.bad_exes@.len() - i,
        {
            if self.bad_exes[i].path == *path {
                assert(self@.bad_exes[i as int].0 == path@);
                return true;
            }
            i += 1;
        }
        false
    }

    /// Remembers that the executable at `path` was refused with `size`
    /// bytes mapped.
    pub fn note_bad_exe(&mut self, path: String, size: u64)
        requires
            old(self).wf(),
        ensures
            final(self).wf(),
            final(self)@ == (StoresView {
                bad_exes: old(self)@.bad_exes.push((path@, size)),
                ..old(self)@
            }),
    {
        self.bad_exes.push(BadExe { path, size });
        assert(self@.bad_exes =~= old(self)@.bad_exes.push((path@, size)));
    }

    /// The identifier of the executable with key `key`. An executable that
    /// the stores do not have yet is inserted as one that no scan has seen.
    /// Calling it again changes nothing, and no executable ever changes its
    /// identifier.
    pub fn ensure_exe(&mut self, key: ExeKey) -> (r: ExeId)
        requires
            old(self).wf(),
        ensures
            final(self).wf(),
            final(self)@ == old(self)@.ensure_exe(key@),
            r == ExeStore::ensured(old(self)@.exes, key@).1,
            final(self)@.has_exe(r),
            exe_slot(final(self)@.exes, key@) == Some(r),
            forall|path: Seq<char>|
                exe_slot(old(self)@.exes, path) is Some ==> exe_slot(final(self)@.exes, path)
                    == exe_slot(old(self)@.exes, path),
            old(self)@.times_consistent() ==> final(self)@.times_consistent(),
            old(self)@.edges_active() ==> final(self)@.edges_active(),
    {
        let r = self.exes.ensure(key);
        proof {
            lemma_still_valid(old(self)@, self@);
        }
        r
    }

    /// The identifier of the segment with the key of `segment`. A segment
    /// that the stores have already takes the update time of `segment`; one
    /// that they do not have is inserted. No segment ever changes its
    /// identifier.
    pub fn ensure_map(&mut self, segment: MapSegment) -> (r: MapId)
        requires
            old(self).wf(),
        ensures
            final(self).wf(),
            final(self)@ == old(self)@.ensure_map(segment@),
            r == MapStore::ensured(old(self)@.maps, segment@).1,
            final(self)@.has_map(r),
            map_slot(final(self)@.maps, segment@.key()) == Some(r),
            forall|key: MapKeyView|
                map_slot(old(self)@.maps, key) is Some ==> map_slot(final(self)@.maps, key)
                    == map_slot(old(self)@.maps, key),
            final(self)@.maps.len() >= old(self)@.maps.len(),
    {
        let r = self.maps.ensure(segment);
        proof {
            lemma_still_valid(old(self)@, self@);
        }
        r
    }

    /// Relates the executable `exe_id` and the segment `map_id`. Doing so
    /// again changes nothing, and nothing is related where one of the two
    /// does not exist.
    pub fn attach_map(&mut self, exe_id: ExeId, map_id: MapId)
        requires
            old(self).wf(),
        ensures
            final(self).wf(),
            final(self)@ == old(self)@.attach_map(exe_id, map_id),
    {
        if self.exes.contains(exe_id) && self.maps.contains(map_id) {
            self.exe_maps.attach(exe_id, map_id);
            proof {
                assert forall|i: int| 0 <= i < self@.exe_maps.len() implies old(
                    self,
                )@.exe_maps.contains(#[trigger] self@.exe_maps[i]) || (self@.has_exe(
                    self@.exe_maps[i].0,
                ) && self@.has_map(self@.exe_maps[i].1)) by {
                    let p = self@.exe_maps[i];
                    assert(self@.exe_maps.contains(p));
                    assert(self.exe_maps.related(p.0, p.1));
                }
                lemma_still_valid(old(self)@, self@);
            }
        }
    }

    /// Makes sure that the two executables have a Markov edge, and says
    /// whether one was created. No edge is created from an executable to
    /// itself, nor where one of the two does not exist. A new edge starts at
    /// `now` in `state` with nothing learnt, under the canonical key of the
    /// pair; an edge that is there stays as it is.
    pub fn ensure_markov_edge(&mut self, a: ExeId, b: ExeId, now: u64, state: MarkovState) -> (r:
        bool)
        requires
            old(self).wf(),
        ensures
            final(self).wf(),
            r == old(self)@.lacks_edge(a, b),
            final(self)@ == old(self)@.ensure_markov_edge(a, b, now, state),
            old(self)@.edges_active() && old(self)@.active.contains_key(a) && old(
                self,
            )@.active.contains_key(b) ==> final(self)@.edges_active(),
    {
        if a.0 == b.0 || !self.exes.contains(a) || !self.exes.contains(b) {
            return false;
        }
        let r = self.markov.ensure_edge(a, b, now, state);
        proof {
            assert forall|i: int| 0 <= i < self@.markov.len() implies has_key(
                old(self)@.markov,
                (#[trigger] self@.markov[i]).0,
            ) || (self@.markov[i].0.0 != self@.markov[i].0.1 && self@.has_exe(
                self@.markov[i].0.0,
            ) && self@.has_exe(self@.markov[i].0.1)) by {
                if i < old(self)@.markov.len() {
                    assert(self@.markov[i] == old(self)@.markov[i]);
                }
            }
            lemma_still_valid(old(self)@, self@);
            if r && old(self)@.edges_active() && old(self)@.active.contains_key(a) && old(
                self,
            )@.active.contains_key(b) {
                assert forall|i: int| 0 <= i < self@.markov.len() implies self@.active.contains_key(
                    (#[trigger] self@.markov[i]).0.0,
                ) && self@.active.contains_key(self@.markov[i].0.1) by {
                    if i < old(self)@.markov.len() {
                        assert(self@.markov[i] == old(self)@.markov[i]);
                    }
                }
            }
        }
        r
    }

    proof fn lemma_exe_changed(&self, before: StoresView, id: ExeId)
        requires
            before.valid(),
            before.has_exe(id),
            self@ == before.with_exe(id, self@.exes[id.0 as int]),
            self@.exes[id.0 as int].path == before.exes[id.0 as int].path,
        ensures
            self@.valid(),
    {
        lemma_same_paths(before.exes, self@.exes);
        lemma_still_valid(before, self@);
    }

    /// Sets whether the latest scan saw the executable `id`. Nothing
    /// changes where it does not exist.
    pub fn set_running(&mut self, id: ExeId, running: bool)
        requires
            old(self).wf(),
        ensures
            final(self).wf(),
            final(self)@ == old(self)@.set_running(id, running),
    {
        if self.exes.contains(id) {
            self.exes.set_running(id, running);
            proof {
                self.lemma_exe_changed(old(self)@, id);
            }
        }
    }

    /// Records that the scan at `now` saw the executable `id`: it runs, and
    /// it was last seen at `now`. Nothing changes where it does not exist.
    pub fn mark_seen(&mut self, id: ExeId, now: u64)
        requires
            old(self).wf(),
        ensures
            final(self).wf(),
            final(self)@ == old(self)@.mark_seen(id, now),
    {
        if self.exes.contains(id) {
            self.exes.set_running(id, true);
            self.exes.set_last_seen(id, Some(now));
            proof {
                assert(self@.exes =~= old(self)@.exes.update(
                    id.0 as int,
                    self@.exes[id.0 as int],
                ));
                self.lemma_exe_changed(old(self)@, id);
            }
        }
    }

    /// Sets the model time at which the running flag of the executable `id`
    /// last flipped. Nothing changes where it does not exist.
    pub fn set_change_time(&mut self, id: ExeId, now: u64)
        requires
            old(self).wf(),
        ensures
            final(self).wf(),
            final(self)@ == old(self)@.set_change_time(id, now),
    {
        if self.exes.contains(id) {
            self.exes.set_change_time(id, now);
            proof {
                self.lemma_exe_changed(old(self)@, id);
            }
        }
    }

    /// Adds `span` to the running time of the executable `id`; the total
    /// stops at the largest value. Nothing changes where it does not exist.
    pub fn add_running_time(&mut self, id: ExeId, span: u64)
        requires
            old(self).wf(),
        ensures
            final(self).wf(),
            final(self)@ == old(self)@.add_running_time(id, span),
    {
        if self.exes.contains(id) {
            self.exes.add_running_time(id, span);
            proof {
                self.lemma_exe_changed(old(self)@, id);
            }
        }
    }

    /// Gives the executable `id` the running time and the time last seen
    /// that a snapshot holds for it. Nothing changes where it does not exist.
    pub fn restore_exe(&mut self, id: ExeId, total_running_time: u64, last_seen_time: Option<u64>)
        requires
            old(self).wf(),
        ensures
            final(self).wf(),
            final(self)@ == old(self)@.restore_exe(id, total_running_time, last_seen_time),
    {
        if self.exes.contains(id) {
            self.exes.set_total_running_time(id, total_running_time);
            self.exes.set_last_seen(id, last_seen_time);
            proof {
                assert(self@.exes =~= old(self)@.exes.update(
                    id.0 as int,
                    self@.exes[id.0 as int],
                ));
                self.lemma_exe_changed(old(self)@, id);
            }
        }
    }

    /// Marks the executable `id` as active and seen at `now`. Nothing
    /// changes where it does not exist.
    pub fn touch_active(&mut self, id: ExeId, now: u64)
        requires
            old(self).wf(),
        ensures
            final(self).wf(),
            final(self)@ == old(self)@.touch_active(id, now),
            old(self)@.edges_active() ==> final(self)@.edges_active(),
    {
        if self.exes.contains(id) {
            self.active.touch(id, now);
            proof {
                lemma_still_valid(old(self)@, self@);
                if old(self)@.edges_active() {
                    assert forall|i: int|
                        0 <= i < self@.markov.len() implies self@.active.contains_key(
                        (#[trigger] self@.markov[i]).0.0,
                    ) && self@.active.contains_key(self@.markov[i].0.1) by {
                        assert(old(self)@.active.contains_key(old(self)@.markov[i].0.0));
                    }
                }
            }
        }
    }

    /// Drops from the active set every executable last seen more than
    /// `window` before `now`, then every Markov edge of which an executable
    /// is no longer active. Returns the number of edges dropped.
    pub fn prune_active(&mut self, now: u64, window: u64) -> (dropped: usize)
        requires
            old(self).wf(),
        ensures
            final(self).wf(),
            final(self)@ == old(self)@.prune_active(now, window),
            final(self)@.edges_active(),
            dropped == old(self)@.markov.len() - final(self)@.markov.len(),
    {
        let before = self.markov.len();
        let _removed = self.active.prune(now, window);
        self.markov.prune_inactive(&self.active);
        proof {
            self.lemma_after_filter(old(self)@.markov);
            old(self)@.markov.lemma_filter_len(within(self@.active));
            assert forall|i: int| 0 <= i < self@.markov.len() implies has_key(
                old(self)@.markov,
                (#[trigger] self@.markov[i]).0,
            ) by {
                let e = self@.markov[i];
                assert(self@.markov.contains(e));
                lemma_filter_member(old(self)@.markov, within(self@.active), e);
                let j = choose|j: int| 0 <= j < old(self)@.markov.len() && old(self)@.markov[j] == e;
                assert(old(self)@.markov[j].0 == e.0);
            }
            lemma_still_valid(old(self)@, self@);
        }
        before - self.markov.len()
    }

    /// Drops every Markov edge of which an executable is not active.
    /// Returns the number of edges dropped.
    pub fn prune_edges(&mut self) -> (dropped: usize)
        requires
            old(self).wf(),
        ensures
            final(self).wf(),
            final(self)@ == old(self)@.prune_edges(),
            final(self)@.edges_active(),
            dropped == old(self)@.markov.len() - final(self)@.markov.len(),
    {
        let before = self.markov.len();
        self.markov.prune_inactive(&self.active);
        proof {
            self.lemma_after_filter(old(self)@.markov);
            old(self)@.markov.lemma_filter_len(within(self@.active));
            assert forall|i: int| 0 <= i < self@.markov.len() implies has_key(
                old(self)@.markov,
                (#[trigger] self@.markov[i]).0,
            ) by {
                let e = self@.markov[i];
                assert(self@.markov.contains(e));
                lemma_filter_member(old(self)@.markov, within(self@.active), e);
                let j = choose|j: int| 0 <= j < old(self)@.markov.len() && old(self)@.markov[j] == e;
                assert(old(self)@.markov[j].0 == e.0);
            }
            lemma_still_valid(old(self)@, self@);
        }
        before - self.markov.len()
    }

    proof fn lemma_after_filter(&self, before: Seq<(EdgeKey, MarkovEdge)>)
        requires
            self@.markov == before.filter(within(self@.active)),
        ensures
            self@.edges_active(),
    {
        let kept = self@.markov;
        assert forall|i: int| 0 <= i < kept.len() implies self@.active.contains_key(
            (#[trigger] kept[i]).0.0,
        ) && self@.active.contains_key(kept[i].0.1) by {
            assert(kept.contains(kept[i]));
            lemma_filter_member(before, within(self@.active), kept[i]);
        }
    }

    /// Brings the edge at position `i` to the joint running state of its
    /// two executables at `now`, and reports the change if there was one.
    /// Nothing changes where there is no such edge.
    pub fn settle_edge(&mut self, i: usize, now: u64) -> (r: Option<Transition>)
        requires
            old(self).wf(),
        ensures
            final(self).wf(),
            final(self)@ == old(self)@.settle_edge(i as int, now),
            r == (if i < old(self)@.markov.len() {
                old(self)@.markov[i as int].1.pending(
                    old(self)@.state_of(old(self)@.markov[i as int].0),
                    now,
                )
            } else {
                None
            }),
            old(self)@.edges_active() ==> final(self)@.edges_active(),
    {
        if i >= self.markov.len() {
            return None;
        }
        let (key, mut edge) = self.markov.entry(i);
        let a_runs = self.exe_runs(key.0);
        let b_runs = self.exe_runs(key.1);
        let r = edge.transition(MarkovState::from_running(a_runs, b_runs), now);
        self.markov.set_edge(i, edge);
        proof {
            self.lemma_same_edge_keys(old(self)@);
            lemma_still_valid(old(self)@, self@);
        }
        r
    }

    /// Whether the executable `id` exists and runs.
    pub fn exe_runs(&self, id: ExeId) -> (r: bool)
        ensures
            r == self@.runs(id),
    {
        match self.exes.get(id) {
            Some(exe) => exe.running,
            None => false,
        }
    }

    proof fn lemma_same_edge_keys(&self, before: StoresView)
        requires
            before.valid(),
            before.active == self@.active,
            before.markov.len() == self@.markov.len(),
            forall|i: int| 0 <= i < before.markov.len() ==> before.markov[i].0 == self@.markov[i].0,
        ensures
            distinct_keys(self@.markov),
            proper_keys(self@.markov),
            forall|i: int|
                0 <= i < self@.markov.len() ==> has_key(
                    before.markov,
                    (#[trigger] self@.markov[i]).0,
                ),
            before.edges_active() ==> self@.edges_active(),
    {
        lemma_same_keys(before.markov, self@.markov);
        assert forall|i: int| 0 <= i < self@.markov.len() implies has_key(
            before.markov,
            (#[trigger] self@.markov[i]).0,
        ) by {
            assert(before.markov[i].0 == self@.markov[i].0);
        }
        if before.edges_active() {
            assert forall|i: int| 0 <= i < self@.markov.len() implies self@.active.contains_key(
                (#[trigger] self@.markov[i]).0.0,
            ) && self@.active.contains_key(self@.markov[i].0.1) by {
                assert(before.active.contains_key(before.markov[i].0.0));
            }
        }
    }

    /// Accounts `span` of model time to the edge at position `i`: it counts
    /// where the edge is in `Both`. Nothing changes where there is no such
    /// edge.
    pub fn account_edge(&mut self, i: usize, span: u64)
        requires
            old(self).wf(),
        ensures
            final(self).wf(),
            final(self)@ == old(self)@.account_edge(i as int, span),
            old(self)@.edges_active() ==> final(self)@.edges_active(),
    {
        if i < self.markov.len() {
            let (_key, mut edge) = self.markov.entry(i);
            edge.account(span);
            self.markov.set_edge(i, edge);
            proof {
                self.lemma_same_edge_keys(old(self)@);
                lemma_still_valid(old(self)@, self@);
            }
        }
    }

    /// Gives the edge of the pair `key` the encoded statistics
    /// `time_to_leave` and `transition_prob`, and says whether the pair has
    /// an edge. The rest of the edge stays as it is.
    pub fn set_edge_statistics(
        &mut self,
        key: EdgeKey,
        time_to_leave: [u32; 4],
        transition_prob: [[u32; 4]; 4],
    ) -> (r: bool)
        requires
            old(self).wf(),
        ensures
            final(self).wf(),
            final(self)@ == old(self)@.set_edge_statistics(key, time_to_leave, transition_prob),
            r == has_key(old(self)@.markov, key),
            old(self)@.edges_active() ==> final(self)@.edges_active(),
    {
        match self.markov.position(key) {
            Some(i) => {
                let (_key, edge) = self.markov.entry(i);
                self.markov.set_edge(i, MarkovEdge { time_to_leave, transition_prob, ..edge });
                proof {
                    self.lemma_same_edge_keys(old(self)@);
                    lemma_still_valid(old(self)@, self@);
                }
                true
            },
            None => false,
        }
    }

    /// Gives the edge of the pair `key` the encoded statistics and the time
    /// both executables ran that a snapshot holds for it, and says whether
    /// the pair has an edge.
    pub fn restore_edge(
        &mut self,
        key: EdgeKey,
        time_to_leave: [u32; 4],
        transition_prob: [[u32; 4]; 4],
        both_running_time: u64,
    ) -> (r: bool)
        requires
            old(self).wf(),
        ensures
            final(self).wf(),
            final(self)@ == old(self)@.restore_edge(
                key,
                time_to_leave,
                transition_prob,
                both_running_time,
            ),
            r == has_key(old(self)@.markov, key),
    {
        match self.markov.position(key) {
            Some(i) => {
                let (_key, edge) = self.markov.entry(i);
                self.markov.set_edge(
                    i,
                    MarkovEdge { time_to_leave, transition_prob, both_running_time, ..edge },
                );
                proof {
                    self.lemma_same_edge_keys(old(self)@);
                    lemma_still_valid(old(self)@, self@);
                }
                true
            },
            None => false,
        }
    }
}

impl Default for Stores {
    fn default() -> (r: Self)
        ensures
            r.wf(),
            r@ == StoresView::empty(),
    {
        Stores::new()
    }
}

} // verus!
