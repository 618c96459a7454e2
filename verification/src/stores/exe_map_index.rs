//! Which executable maps which segment.

use vstd::prelude::*;
use crate::domain::{ExeId, MapId};
use crate::stores::assoc::{
    lemma_filter_member, lemma_filter_no_duplicates, lemma_pushed_contains,
};

verus! {

/// The incidence relation between executables and map segments, in the
/// order in which the pairs were attached.
#[derive(Debug)]
pub struct ExeMapIndex {
    pairs: Vec<(ExeId, MapId)>,
}

/// The pairs of the executable `exe`.
pub open spec fn of_exe(exe: ExeId) -> spec_fn((ExeId, MapId)) -> bool {
    |p: (ExeId, MapId)| p.0 == exe
}

/// The pairs of every executable but `exe`.
pub open spec fn not_of_exe(exe: ExeId) -> spec_fn((ExeId, MapId)) -> bool {
    |p: (ExeId, MapId)| p.0 != exe
}

/// The pairs of the segment `map`.
pub open spec fn of_map(map: MapId) -> spec_fn((ExeId, MapId)) -> bool {
    |p: (ExeId, MapId)| p.1 == map
}

/// The executable of a pair.
pub open spec fn exe_side() -> spec_fn((ExeId, MapId)) -> ExeId {
    |p: (ExeId, MapId)| p.0
}

/// The segment of a pair.
pub open spec fn map_side() -> spec_fn((ExeId, MapId)) -> MapId {
    |p: (ExeId, MapId)| p.1
}

impl View for ExeMapIndex {
    type V = Seq<(ExeId, MapId)>;

    closed spec fn view(&self) -> Seq<(ExeId, MapId)> {
        self.pairs@
    }
}

impl ExeMapIndex {
    /// No pair is held twice.
    pub open spec fn wf(&self) -> bool {
        self@.no_duplicates()
    }

    /// Whether `exe` maps `map`.
    pub open spec fn related(&self, exe: ExeId, map: MapId) -> bool {
        self@.contains((exe, map))
    }

    /// The segments that `exe` maps, in the order in which they were attached.
    pub open spec fn maps_of(&self, exe: ExeId) -> Seq<MapId> {
        self@.filter(of_exe(exe)).map_values(map_side())
    }

    /// The executables that map `map`, in the order in which they were attached.
    pub open spec fn exes_of(&self, map: MapId) -> Seq<ExeId> {
        self@.filter(of_map(map)).map_values(exe_side())
    }

    /// The index that relates nothing.
    pub fn new() -> (r: Self)
        ensures
            r.wf(),
            r@ == Seq::<(ExeId, MapId)>::empty(),
    {
        ExeMapIndex { pairs: Vec::new() }
    }

    /// Number of pairs.
    pub fn len(&self) -> (r: usize)
        ensures
            r == self@.len(),
    {
        self.pairs.len()
    }

    /// The pair at position `i`.
    pub fn pair(&self, i: usize) -> (r: (ExeId, MapId))
        requires
            i < self@.len(),
        ensures
            r == self@[i as int],
    {
        self.pairs[i]
    }

    /// Whether `exe` maps `map`.
    pub fn contains(&self, exe_id: ExeId, map_id: MapId) -> (r: bool)
        ensures
            r == self.related(exe_id, map_id),
    {
        let mut i: usize = 0;
        while i < self.pairs.len()
            invariant
                i <= self.pairs@.len(),
                forall|j: int| 0 <= j < i ==> self.pairs@[j] != (exe_id, map_id),
            decreases self.pairs@.len() - i,
        {
            let p = self.pairs[i];
            if p.0 == exe_id && p.1 == map_id {
                return true;
            }
            i += 1;
        }
        false
    }

    /// Relates `exe_id` and `map_id`. A pair that is already there stays
    /// where it is.
    pub fn attach(&mut self, exe_id: ExeId, map_id: MapId)
        requires
            old(self).wf(),
        ensures
            final(self).wf(),
            final(self)@ == (if old(self).related(exe_id, map_id) {
                old(self)@
            } else {
                old(self)@.push((exe_id, map_id))
            }),
            final(self).related(exe_id, map_id),
            forall|e: ExeId, m: MapId|
                final(self).related(e, m) <==> (old(self).related(e, m) || (e == exe_id && m
                    == map_id)),
    {
        if !self.contains(exe_id, map_id) {
            self.pairs.push((exe_id, map_id));
            proof {
                let before = old(self)@;
                let after = self.pairs@;
                assert(after[before.len() as int] == (exe_id, map_id));
                assert forall|e: ExeId, m: MapId|
                    after.contains((e, m)) <==> (before.contains((e, m)) || (e == exe_id && m
                        == map_id)) by {
                    lemma_pushed_contains(
                        before,
                        (exe_id, map_id),
                        (e, m),
                    );
                }
                lemma_pushed_contains(
                    before,
                    (exe_id, map_id),
                    (exe_id, map_id),
                );
            }
        }
    }

    /// The segments that `exe_id` maps.
    pub fn maps_for_exe(&self, exe_id: ExeId) -> (r: Vec<MapId>)
        ensures
            r@ == self.maps_of(exe_id),
    {
        let mut r: Vec<MapId> = Vec::new();
        let mut i: usize = 0;
        proof {
            reveal(Seq::filter);
            assert(self.pairs@.take(0).filter(of_exe(exe_id)).map_values(map_side()) =~= r@);
        }
        while i < self.pairs.len()
            invariant
                i <= self.pairs@.len(),
                r@ == self.pairs@.take(i as int).filter(of_exe(exe_id)).map_values(map_side()),
            decreases self.pairs@.len() - i,
        {
            let p = self.pairs[i];
            proof {
                let head = self.pairs@.take(i as int);
                assert(self.pairs@.take(i + 1) =~= head.push(p));
                head.lemma_filter_push(p, of_exe(exe_id));
                head.filter(of_exe(exe_id)).lemma_push_map_commute(map_side(), p);
            }
            if p.0 == exe_id {
                r.push(p.1);
            }
            i += 1;
        }
        proof {
            assert(self.pairs@.take(i as int) =~= self.pairs@);
        }
        r
    }

    /// The executables that map `map_id`.
    pub fn exes_for_map(&self, map_id: MapId) -> (r: Vec<ExeId>)
        ensures
            r@ == self.exes_of(map_id),
    {
        let mut r: Vec<ExeId> = Vec::new();
        let mut i: usize = 0;
        proof {
            reveal(Seq::filter);
            assert(self.pairs@.take(0).filter(of_map(map_id)).map_values(exe_side()) =~= r@);
        }
        while i < self.pairs.len()
            invariant
                i <= self.pairs@.len(),
                r@ == self.pairs@.take(i as int).filter(of_map(map_id)).map_values(exe_side()),
            decreases self.pairs@.len() - i,
        {
            let p = self.pairs[i];
            proof {
                let head = self.pairs@.take(i as int);
                assert(self.pairs@.take(i + 1) =~= head.push(p));
                head.lemma_filter_push(p, of_map(map_id));
                head.filter(of_map(map_id)).lemma_push_map_commute(exe_side(), p);
            }
            if p.1 == map_id {
                r.push(p.0);
            }
            i += 1;
        }
        proof {
            assert(self.pairs@.take(i as int) =~= self.pairs@);
        }
        r
    }

    /// Forgets every pair of `exe_id`.
    pub fn remove_exe(&mut self, exe_id: ExeId)
        requires
            old(self).wf(),
        ensures
            final(self).wf(),
            final(self)@ == old(self)@.filter(not_of_exe(exe_id)),
            forall|e: ExeId, m: MapId|
                final(self).related(e, m) <==> (old(self).related(e, m) && e != exe_id),
    {
        let mut kept: Vec<(ExeId, MapId)> = Vec::new();
        let mut i: usize = 0;
        proof {
            reveal(Seq::filter);
            assert(self.pairs@.take(0).filter(not_of_exe(exe_id)) =~= kept@);
        }
        while i < self.pairs.len()
            invariant
                i <= self.pairs@.len(),
                self.pairs@ == old(self)@,
                kept@ == self.pairs@.take(i as int).filter(not_of_exe(exe_id)),
            decreases self.pairs@.len() - i,
        {
            let p = self.pairs[i];
            proof {
                let head = self.pairs@.take(i as int);
                assert(self.pairs@.take(i + 1) =~= head.push(p));
                head.lemma_filter_push(p, not_of_exe(exe_id));
            }
            if p.0 != exe_id {
                kept.push(p);
            }
            i += 1;
        }
        proof {
            assert(self.pairs@.take(i as int) =~= self.pairs@);
            lemma_filter_no_duplicates(old(self)@, not_of_exe(exe_id));
            assert forall|e: ExeId, m: MapId|
                kept@.contains((e, m)) <==> (old(self)@.contains((e, m)) && e != exe_id) by {
                lemma_filter_member(old(self)@, not_of_exe(exe_id), (e, m));
            }
        }
        self.pairs = kept;
    }
}

/// The incidence relation reads the same from either side: a segment is
/// among those of an executable if and only if the executable is among
/// those of the segment.
pub proof fn lemma_incidence_symmetric(index: ExeMapIndex, exe: ExeId, map: MapId)
    ensures
        index.maps_of(exe).contains(map) <==> index.exes_of(map).contains(exe),
        index.maps_of(exe).contains(map) <==> index.related(exe, map),
{
    lemma_side_member(index@, exe, map);
}

proof fn lemma_side_member(pairs: Seq<(ExeId, MapId)>, exe: ExeId, map: MapId)
    ensures
        pairs.filter(of_exe(exe)).map_values(map_side()).contains(map) <==> pairs.contains(
            (exe, map),
        ),
        pairs.filter(of_map(map)).map_values(exe_side()).contains(exe) <==> pairs.contains(
            (exe, map),
        ),
{
    let by_exe = pairs.filter(of_exe(exe));
    let by_map = pairs.filter(of_map(map));
    lemma_filter_member(pairs, of_exe(exe), (exe, map));
    lemma_filter_member(pairs, of_map(map), (exe, map));
    if by_exe.map_values(map_side()).contains(map) {
        let j = choose|j: int|
            0 <= j < by_exe.map_values(map_side()).len() && by_exe.map_values(map_side())[j]
                == map;
        assert(by_exe.contains(by_exe[j]));
        lemma_filter_member(pairs, of_exe(exe), by_exe[j]);
        assert(by_exe[j] == (exe, map));
    }
    if by_exe.contains((exe, map)) {
        let j = choose|j: int| 0 <= j < by_exe.len() && by_exe[j] == (exe, map);
        assert(by_exe.map_values(map_side())[j] == map);
    }
    if by_map.map_values(exe_side()).contains(exe) {
        let j = choose|j: int|
            0 <= j < by_map.map_values(exe_side()).len() && by_map.map_values(exe_side())[j]
                == exe;
        assert(by_map.contains(by_map[j]));
        lemma_filter_member(pairs, of_map(map), by_map[j]);
        assert(by_map[j] == (exe, map));
    }
    if by_map.contains((exe, map)) {
        let j = choose|j: int| 0 <= j < by_map.len() && by_map[j] == (exe, map);
        assert(by_map.map_values(exe_side())[j] == exe);
    }
}

} // verus!
