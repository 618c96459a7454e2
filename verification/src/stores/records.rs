//! The stores that own the executables and the map segments. A record gets
//! the number of its slot as identifier when it is inserted, and keeps it.

use vstd::prelude::*;
use crate::domain::{
    capped_sum, Exe, ExeId, ExeKey, ExeView, MapId, MapKey, MapKeyView, MapSegment,
    MapSegmentView,
};

verus! {

/// No two executables have one path.
pub open spec fn distinct_paths(exes: Seq<ExeView>) -> bool {
    forall|i: int, j: int|
        0 <= i < exes.len() && 0 <= j < exes.len() && i != j ==> exes[i].path != exes[j].path
}

/// The slot of the executable with path `path`, if there is one.
pub open spec fn exe_slot(exes: Seq<ExeView>, path: Seq<char>) -> Option<ExeId> {
    if exists|i: int| 0 <= i < exes.len() && exes[i].path == path {
        Some(ExeId((choose|i: int| 0 <= i < exes.len() && exes[i].path == path) as usize))
    } else {
        None
    }
}

/// With distinct paths, the slot of a path is the slot that holds it.
pub proof fn lemma_exe_slot(exes: Seq<ExeView>, i: int)
    requires
        distinct_paths(exes),
        0 <= i < exes.len(),
        exes.len() <= usize::MAX,
    ensures
        exe_slot(exes, exes[i].path) == Some(ExeId(i as usize)),
{
}

/// No two segments have one key.
pub open spec fn distinct_map_keys(maps: Seq<MapSegmentView>) -> bool {
    forall|i: int, j: int|
        0 <= i < maps.len() && 0 <= j < maps.len() && i != j ==> maps[i].key() != maps[j].key()
}

/// The slot of the segment with key `key`, if there is one.
pub open spec fn map_slot(maps: Seq<MapSegmentView>, key: MapKeyView) -> Option<MapId> {
    if exists|i: int| 0 <= i < maps.len() && maps[i].key() == key {
        Some(MapId((choose|i: int| 0 <= i < maps.len() && maps[i].key() == key) as usize))
    } else {
        None
    }
}

/// With distinct keys, the slot of a key is the slot that holds it.
pub proof fn lemma_map_slot(maps: Seq<MapSegmentView>, i: int)
    requires
        distinct_map_keys(maps),
        0 <= i < maps.len(),
        maps.len() <= usize::MAX,
    ensures
        map_slot(maps, maps[i].key()) == Some(MapId(i as usize)),
{
}

/// The executables, each in the slot that its identifier names.
#[derive(Debug)]
pub struct ExeStore {
    records: Vec<Exe>,
}

impl View for ExeStore {
    type V = Seq<ExeView>;

    closed spec fn view(&self) -> Seq<ExeView> {
        Seq::new(self.records@.len(), |i: int| self.records@[i]@)
    }
}

impl ExeStore {
    /// Path and identifier determine each other.
    pub open spec fn wf(&self) -> bool {
        distinct_paths(self@) && self@.len() <= usize::MAX
    }

    /// The identifier of the executable with path `path`, if the store has it.
    pub open spec fn spec_id_by_key(&self, path: Seq<char>) -> Option<ExeId> {
        exe_slot(self@, path)
    }

    /// The store without executables.
    pub fn new() -> (r: Self)
        ensures
            r.wf(),
            r@ == Seq::<ExeView>::empty(),
    {
        let r = ExeStore { records: Vec::new() };
        assert(r@ =~= Seq::<ExeView>::empty());
        r
    }

    /// Number of executables. Their identifiers are the numbers below it.
    pub fn len(&self) -> (r: usize)
        ensures
            r == self@.len(),
    {
        self.records.len()
    }

    /// Whether `id` names an executable of the store.
    pub fn contains(&self, id: ExeId) -> (r: bool)
        ensures
            r == (id.0 < self@.len()),
    {
        id.0 < self.records.len()
    }

    pub fn get(&self, id: ExeId) -> (r: Option<&Exe>)
        ensures
            match r {
                Some(exe) => id.0 < self@.len() && exe@ == self@[id.0 as int],
                None => id.0 >= self@.len(),
            },
    {
        if id.0 < self.records.len() {
            Some(&self.records[id.0])
        } else {
            None
        }
    }

    pub fn id_by_key(&self, key: &ExeKey) -> (r: Option<ExeId>)
        requires
            self.wf(),
        ensures
            r == self.spec_id_by_key(key@),
            r matches Some(id) ==> id.0 < self@.len() && self@[id.0 as int].path == key@,
    {
        let mut i: usize = 0;
        while i < self.records.len()
            invariant
                i <= self.records@.len(),
                self.wf(),
                forall|j: int| 0 <= j < i ==> self@[j].path != key@,
            decreases self.records@.len() - i,
        {
            if self.records[i].key.same_as(key) {
                proof {
                    lemma_exe_slot(self@, i as int);
                }
                return Some(ExeId(i));
            }
            i += 1;
        }
        None
    }

    /// What `ensure` leaves and returns for `path`.
    pub open spec fn ensured(exes: Seq<ExeView>, path: Seq<char>) -> (Seq<ExeView>, ExeId) {
        match exe_slot(exes, path) {
            Some(id) => (exes, id),
            None => (exes.push(ExeView::fresh(path)), ExeId(exes.len() as usize)),
        }
    }

    /// The identifier of the executable with key `key`. An executable that
    /// the store does not have yet is inserted as one that no scan has seen.
    /// No other record changes, and none changes its identifier.
    pub fn ensure(&mut self, key: ExeKey) -> (r: ExeId)
        requires
            old(self).wf(),
        ensures
            final(self).wf(),
            (final(self)@, r) == Self::ensured(old(self)@, key@),
            final(self).spec_id_by_key(key@) == Some(r),
            r.0 < final(self)@.len(),
            forall|path: Seq<char>|
                exe_slot(old(self)@, path) is Some ==> exe_slot(final(self)@, path) == exe_slot(
                    old(self)@,
                    path,
                ),
            final(self)@.len() >= old(self)@.len(),
    {
        match self.id_by_key(&key) {
            Some(id) => id,
            None => {
                let id = ExeId(self.records.len());
                let ghost before = self@;
                self.records.push(Exe::new(key));
                proof {
                    assert(self@ =~= before.push(ExeView::fresh(key@)));
                    assert(self.records.len() == self.records@.len());
                    lemma_pushed_exe_slots(before, ExeView::fresh(key@));
                }
                id
            },
        }
    }

    /// Sets whether the latest scan saw the executable.
    pub fn set_running(&mut self, id: ExeId, running: bool)
        requires
            id.0 < old(self)@.len(),
        ensures
            final(self)@ == old(self)@.update(
                id.0 as int,
                ExeView { running, ..old(self)@[id.0 as int] },
            ),
    {
        self.records[id.0].running = running;
        assert(self@ =~= old(self)@.update(
            id.0 as int,
            ExeView { running, ..old(self)@[id.0 as int] },
        ));
    }

    /// Sets the model time of the last scan that saw the executable.
    pub fn set_last_seen(&mut self, id: ExeId, last_seen_time: Option<u64>)
        requires
            id.0 < old(self)@.len(),
        ensures
            final(self)@ == old(self)@.update(
                id.0 as int,
                ExeView { last_seen_time, ..old(self)@[id.0 as int] },
            ),
    {
        self.records[id.0].last_seen_time = last_seen_time;
        assert(self@ =~= old(self)@.update(
            id.0 as int,
            ExeView { last_seen_time, ..old(self)@[id.0 as int] },
        ));
    }

    /// Sets the model time at which the running flag last flipped.
    pub fn set_change_time(&mut self, id: ExeId, change_time: u64)
        requires
            id.0 < old(self)@.len(),
        ensures
            final(self)@ == old(self)@.update(
                id.0 as int,
                ExeView { change_time, ..old(self)@[id.0 as int] },
            ),
    {
        self.records[id.0].change_time = change_time;
        assert(self@ =~= old(self)@.update(
            id.0 as int,
            ExeView { change_time, ..old(self)@[id.0 as int] },
        ));
    }

    /// Sets the accumulated running time.
    pub fn set_total_running_time(&mut self, id: ExeId, total_running_time: u64)
        requires
            id.0 < old(self)@.len(),
        ensures
            final(self)@ == old(self)@.update(
                id.0 as int,
                ExeView { total_running_time, ..old(self)@[id.0 as int] },
            ),
    {
        self.records[id.0].total_running_time = total_running_time;
        assert(self@ =~= old(self)@.update(
            id.0 as int,
            ExeView { total_running_time, ..old(self)@[id.0 as int] },
        ));
    }

    /// Adds `span` to the accumulated running time; the total stops at the
    /// largest value.
    pub fn add_running_time(&mut self, id: ExeId, span: u64)
        requires
            id.0 < old(self)@.len(),
        ensures
            final(self)@ == old(self)@.update(
                id.0 as int,
                ExeView {
                    total_running_time: capped_sum(
                        old(self)@[id.0 as int].total_running_time,
                        span,
                    ),
                    ..old(self)@[id.0 as int]
                },
            ),
    {
        let total = self.records[id.0].total_running_time.saturating_add(span);
        self.set_total_running_time(id, total);
    }
}

/// Setting anything but the path of a record keeps the paths distinct and
/// every path in its slot.
pub proof fn lemma_same_paths(before: Seq<ExeView>, after: Seq<ExeView>)
    requires
        distinct_paths(before),
        before.len() <= usize::MAX,
        before.len() == after.len(),
        forall|i: int| 0 <= i < before.len() ==> before[i].path == after[i].path,
    ensures
        distinct_paths(after),
        forall|path: Seq<char>| exe_slot(after, path) == exe_slot(before, path),
{
    assert forall|i: int, j: int|
        0 <= i < after.len() && 0 <= j < after.len() && i != j implies after[i].path
        != after[j].path by {
        assert(before[i].path != before[j].path);
    }
    assert forall|path: Seq<char>| exe_slot(after, path) == exe_slot(before, path) by {
        if exists|i: int| 0 <= i < after.len() && after[i].path == path {
            let i = choose|i: int| 0 <= i < after.len() && after[i].path == path;
            assert(before[i].path == path);
            lemma_exe_slot(before, i);
            lemma_exe_slot(after, i);
        } else if exists|i: int| 0 <= i < before.len() && before[i].path == path {
            let i = choose|i: int| 0 <= i < before.len() && before[i].path == path;
            assert(after[i].path == path);
        }
    }
}

/// The map segments, each in the slot that its identifier names.
#[derive(Debug)]
pub struct MapStore {
    records: Vec<MapSegment>,
}

impl View for MapStore {
    type V = Seq<MapSegmentView>;

    closed spec fn view(&self) -> Seq<MapSegmentView> {
        Seq::new(self.records@.len(), |i: int| self.records@[i]@)
    }
}

impl MapStore {
    /// Key and identifier determine each other.
    pub open spec fn wf(&self) -> bool {
        distinct_map_keys(self@) && self@.len() <= usize::MAX
    }

    /// The identifier of the segment with key `key`, if the store has it.
    pub open spec fn spec_id_by_key(&self, key: MapKeyView) -> Option<MapId> {
        map_slot(self@, key)
    }

    /// The store without segments.
    pub fn new() -> (r: Self)
        ensures
            r.wf(),
            r@ == Seq::<MapSegmentView>::empty(),
    {
        let r = MapStore { records: Vec::new() };
        assert(r@ =~= Seq::<MapSegmentView>::empty());
        r
    }

    /// Number of segments. Their identifiers are the numbers below it.
    pub fn len(&self) -> (r: usize)
        ensures
            r == self@.len(),
    {
        self.records.len()
    }

    /// Whether `id` names a segment of the store.
    pub fn contains(&self, id: MapId) -> (r: bool)
        ensures
            r == (id.0 < self@.len()),
    {
        id.0 < self.records.len()
    }

    pub fn get(&self, id: MapId) -> (r: Option<&MapSegment>)
        ensures
            match r {
                Some(map) => id.0 < self@.len() && map@ == self@[id.0 as int],
                None => id.0 >= self@.len(),
            },
    {
        if id.0 < self.records.len() {
            Some(&self.records[id.0])
        } else {
            None
        }
    }

    pub fn id_by_key(&self, key: &MapKey) -> (r: Option<MapId>)
        requires
            self.wf(),
        ensures
            r == self.spec_id_by_key(key@),
            r matches Some(id) ==> id.0 < self@.len() && self@[id.0 as int].key() == key@,
    {
        let mut i: usize = 0;
        while i < self.records.len()
            invariant
                i <= self.records@.len(),
                self.wf(),
                forall|j: int| 0 <= j < i ==> self@[j].key() != key@,
            decreases self.records@.len() - i,
        {
            if self.records[i].has_key(key) {
                proof {
                    lemma_map_slot(self@, i as int);
                }
                return Some(MapId(i));
            }
            i += 1;
        }
        None
    }

    /// What `ensure` leaves and returns for `segment`.
    pub open spec fn ensured(maps: Seq<MapSegmentView>, segment: MapSegmentView) -> (
        Seq<MapSegmentView>,
        MapId,
    ) {
        match map_slot(maps, segment.key()) {
            Some(id) => (
                maps.update(
                    id.0 as int,
                    MapSegmentView { update_time: segment.update_time, ..maps[id.0 as int] },
                ),
                id,
            ),
            None => (maps.push(segment), MapId(maps.len() as usize)),
        }
    }

    /// The identifier of the segment with the key of `segment`. A segment
    /// that the store has already takes the update time of `segment`; one
    /// that it does not have is inserted. No other record changes, and none
    /// changes its identifier.
    pub fn ensure(&mut self, segment: MapSegment) -> (r: MapId)
        requires
            old(self).wf(),
        ensures
            final(self).wf(),
            (final(self)@, r) == Self::ensured(old(self)@, segment@),
            final(self).spec_id_by_key(segment@.key()) == Some(r),
            r.0 < final(self)@.len(),
            forall|key: MapKeyView|
                map_slot(old(self)@, key) is Some ==> map_slot(final(self)@, key) == map_slot(
                    old(self)@,
                    key,
                ),
            final(self)@.len() >= old(self)@.len(),
    {
        let key = segment.key();
        let ghost before = self@;
        match self.id_by_key(&key) {
            Some(id) => {
                self.records[id.0].update_time = segment.update_time;
                proof {
                    assert(self@ =~= before.update(
                        id.0 as int,
                        MapSegmentView { update_time: segment.update_time, ..before[id.0 as int] },
                    ));
                    lemma_same_map_keys(before, self@);
                }
                id
            },
            None => {
                let id = MapId(self.records.len());
                self.records.push(segment);
                proof {
                    assert(self@ =~= before.push(segment@));
                    assert(self.records.len() == self.records@.len());
                    lemma_map_slot(self@, id.0 as int);
                    assert forall|k: MapKeyView| map_slot(before, k) is Some implies map_slot(
                        self@,
                        k,
                    ) == map_slot(before, k) by {
                        let i = choose|i: int| 0 <= i < before.len() && before[i].key() == k;
                        assert(self@[i].key() == k);
                        lemma_map_slot(self@, i);
                        lemma_map_slot(before, i);
                    }
                }
                id
            },
        }
    }
}

/// Setting anything but the key of a segment keeps the keys distinct and
/// every key in its slot.
pub proof fn lemma_same_map_keys(before: Seq<MapSegmentView>, after: Seq<MapSegmentView>)
    requires
        distinct_map_keys(before),
        before.len() <= usize::MAX,
        before.len() == after.len(),
        forall|i: int| 0 <= i < before.len() ==> before[i].key() == after[i].key(),
    ensures
        distinct_map_keys(after),
        forall|key: MapKeyView| map_slot(after, key) == map_slot(before, key),
{
    assert forall|i: int, j: int|
        0 <= i < after.len() && 0 <= j < after.len() && i != j implies after[i].key()
        != after[j].key() by {
        assert(before[i].key() != before[j].key());
    }
    assert forall|key: MapKeyView| map_slot(after, key) == map_slot(before, key) by {
        if exists|i: int| 0 <= i < after.len() && after[i].key() == key {
            let i = choose|i: int| 0 <= i < after.len() && after[i].key() == key;
            assert(before[i].key() == key);
            lemma_map_slot(before, i);
            lemma_map_slot(after, i);
        } else if exists|i: int| 0 <= i < before.len() && before[i].key() == key {
            let i = choose|i: int| 0 <= i < before.len() && before[i].key() == key;
            assert(after[i].key() == key);
        }
    }
}

/// Appending a record with a new path keeps every path that was there in
/// its slot.
pub proof fn lemma_pushed_exe_slots(before: Seq<ExeView>, exe: ExeView)
    requires
        distinct_paths(before),
        exe_slot(before, exe.path) is None,
        before.len() + 1 <= usize::MAX,
    ensures
        distinct_paths(before.push(exe)),
        exe_slot(before.push(exe), exe.path) == Some(ExeId(before.len() as usize)),
        forall|path: Seq<char>|
            exe_slot(before, path) is Some ==> exe_slot(before.push(exe), path) == exe_slot(
                before,
                path,
            ),
        forall|path: Seq<char>|
            path != exe.path ==> exe_slot(before.push(exe), path) == exe_slot(before, path),
{
    let after = before.push(exe);
    assert forall|i: int, j: int|
        0 <= i < after.len() && 0 <= j < after.len() && i != j implies after[i].path
        != after[j].path by {
        if i < before.len() && j < before.len() {
        } else if i < before.len() {
            assert(before[i].path != exe.path);
        } else {
            assert(before[j].path != exe.path);
        }
    }
    lemma_exe_slot(after, before.len() as int);
    assert forall|path: Seq<char>| path != exe.path implies exe_slot(after, path) == exe_slot(
        before,
        path,
    ) by {
        if exists|i: int| 0 <= i < after.len() && after[i].path == path {
            let i = choose|i: int| 0 <= i < after.len() && after[i].path == path;
            assert(before[i].path == path);
            lemma_exe_slot(after, i);
            lemma_exe_slot(before, i);
        } else if exists|i: int| 0 <= i < before.len() && before[i].path == path {
            let i = choose|i: int| 0 <= i < before.len() && before[i].path == path;
            assert(after[i].path == path);
        }
    }
}

} // verus!
