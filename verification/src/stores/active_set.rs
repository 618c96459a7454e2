//! The sliding set of executables that a scan saw lately.

use std::collections::HashMap;
use vstd::prelude::*;
use vstd::set_lib::lemma_map_size;
use vstd::std_specs::iter::IteratorSpec;
use crate::domain::{elapsed, ExeId};
use crate::stores::assoc::lemma_pushed_contains;

verus! {

/// For each active executable, the model time at which a scan last saw it,
/// under the number of its slot.
#[derive(Debug)]
pub struct ActiveSet {
    last_seen: HashMap<usize, u64>,
}

/// Whether an executable last seen at `last` has left a window of `window`
/// by `now`.
pub open spec fn is_stale(last: u64, now: u64, window: u64) -> bool {
    elapsed(now, last) > window
}

/// The map over identifiers that a map over slot numbers stands for.
pub open spec fn by_id(m: Map<usize, u64>) -> Map<ExeId, u64> {
    Map::new(|id: ExeId| m.contains_key(id.0), |id: ExeId| m[id.0])
}

/// The identifier of a slot number.
pub open spec fn id_of() -> spec_fn(usize) -> ExeId {
    |k: usize| ExeId(k)
}

impl View for ActiveSet {
    type V = Map<ExeId, u64>;

    closed spec fn view(&self) -> Map<ExeId, u64> {
        by_id(self.last_seen@)
    }
}

impl ActiveSet {
    /// Finitely many executables are active.
    pub closed spec fn wf(&self) -> bool {
        self.last_seen@.dom().finite()
    }

    /// The set in which no executable is active.
    pub fn new() -> (r: Self)
        ensures
            r.wf(),
            r@ == Map::<ExeId, u64>::empty(),
    {
        let r = ActiveSet { last_seen: HashMap::new() };
        assert(r@ =~= Map::<ExeId, u64>::empty());
        r
    }

    /// Number of active executables.
    pub fn len(&self) -> (r: usize)
        requires
            self.wf(),
        ensures
            self@.dom().finite(),
            r == self@.dom().len(),
    {
        broadcast use vstd::std_specs::hash::group_hash_axioms;

        proof {
            let slots = self.last_seen@.dom();
            assert(slots.map(id_of()) =~= self@.dom()) by {
                assert forall|id: ExeId| self@.dom().contains(id) implies slots.map(
                    id_of(),
                ).contains(id) by {
                    assert(slots.contains(id.0) && id == id_of()(id.0));
                }
            }
            lemma_map_size(slots, self@.dom(), id_of());
        }
        self.last_seen.len()
    }

    /// Whether `id` is active.
    pub fn contains(&self, id: ExeId) -> (r: bool)
        requires
            self.wf(),
        ensures
            r == self@.contains_key(id),
    {
        broadcast use vstd::std_specs::hash::group_hash_axioms;

        self.last_seen.contains_key(&id.0)
    }

    /// The model time at which `id` was last seen, if it is active.
    pub fn last_seen(&self, id: ExeId) -> (r: Option<u64>)
        requires
            self.wf(),
        ensures
            r == (if self@.contains_key(id) {
                Some(self@[id])
            } else {
                None
            }),
    {
        broadcast use vstd::std_specs::hash::group_hash_axioms;

        match self.last_seen.get(&id.0) {
            Some(t) => Some(*t),
            None => None,
        }
    }

    /// Marks `id` as seen at `now`.
    pub fn touch(&mut self, id: ExeId, now: u64)
        requires
            old(self).wf(),
        ensures
            final(self).wf(),
            final(self)@ == old(self)@.insert(id, now),
    {
        broadcast use vstd::std_specs::hash::group_hash_axioms;

        self.last_seen.insert(id.0, now);
        assert(self@ =~= old(self)@.insert(id, now));
    }

    /// What `update` leaves: every executable of `active_now` seen at `now`,
    /// the others as before.
    pub open spec fn updated(m: Map<ExeId, u64>, active_now: Seq<ExeId>, now: u64) -> Map<
        ExeId,
        u64,
    > {
        Map::new(
            |id: ExeId| m.contains_key(id) || active_now.contains(id),
            |id: ExeId|
                if active_now.contains(id) {
                    now
                } else {
                    m[id]
                },
        )
    }

    /// Marks every executable of `active_now` as seen at `now`.
    pub fn update(&mut self, active_now: &Vec<ExeId>, now: u64)
        requires
            old(self).wf(),
        ensures
            final(self).wf(),
            final(self)@ == Self::updated(old(self)@, active_now@, now),
    {
        let mut i: usize = 0;
        assert(self@ =~= Self::updated(old(self)@, active_now@.take(0), now));
        while i < active_now.len()
            invariant
                i <= active_now@.len(),
                self.wf(),
                self@ == Self::updated(old(self)@, active_now@.take(i as int), now),
            decreases active_now@.len() - i,
        {
            self.touch(active_now[i], now);
            proof {
                let head = active_now@.take(i as int);
                let next = active_now@.take(i + 1);
                assert(next =~= head.push(active_now@[i as int]));
                assert forall|id: ExeId| next.contains(id) == (head.contains(id) || id
                    == active_now@[i as int]) by {
                    lemma_pushed_contains(head, active_now@[i as int], id);
                }
                assert(self@ =~= Self::updated(old(self)@, next, now));
            }
            i += 1;
        }
        proof {
            assert(active_now@.take(i as int) =~= active_now@);
        }
    }

    /// What `prune` leaves: the executables that are not stale.
    pub open spec fn pruned(m: Map<ExeId, u64>, now: u64, window: u64) -> Map<ExeId, u64> {
        Map::new(|id: ExeId| m.contains_key(id) && !is_stale(m[id], now, window), |id: ExeId| m[id])
    }

    /// The slot numbers of the executables, each once.
    fn slots(&self) -> (r: Vec<usize>)
        requires
            self.wf(),
        ensures
            r@.no_duplicates(),
            forall|k: usize| r@.contains(k) <==> self.last_seen@.contains_key(k),
    {
        broadcast use vstd::std_specs::hash::group_hash_axioms;

        let mut r: Vec<usize> = Vec::new();
        let keys = self.last_seen.keys();
        let ghost all = keys.remaining().unref();
        assert(all.to_set() == self.last_seen@.dom());
        for k in it: keys
            invariant
                it.seq().unref() == all,
                r@ == all.take(it.index()),
        {
            r.push(*k);
            assert(all.take(it.index() + 1) =~= all.take(it.index()).push(*k));
        }
        assert(r@ =~= all);
        assert forall|k: usize| r@.contains(k) <==> self.last_seen@.contains_key(k) by {
            assert(all.to_set().contains(k) <==> all.contains(k));
        }
        r
    }

    /// Drops every executable that was last seen more than `window` before
    /// `now`, and returns those dropped, each once.
    pub fn prune(&mut self, now: u64, window: u64) -> (removed: Vec<ExeId>)
        requires
            old(self).wf(),
        ensures
            final(self).wf(),
            final(self)@ == Self::pruned(old(self)@, now, window),
            removed@.no_duplicates(),
            forall|id: ExeId|
                removed@.contains(id) <==> (old(self)@.contains_key(id) && is_stale(
                    old(self)@[id],
                    now,
                    window,
                )),
    {
        broadcast use vstd::std_specs::hash::group_hash_axioms;

        let slots = self.slots();
        let ghost before = self.last_seen@;
        let mut removed: Vec<ExeId> = Vec::new();
        let mut i: usize = 0;
        while i < slots.len()
            invariant
                i <= slots@.len(),
                slots@.no_duplicates(),
                forall|k: usize| slots@.contains(k) <==> before.contains_key(k),
                self.wf(),
                forall|k: usize| #[trigger]
                    self.last_seen@.contains_key(k) <==> before.contains_key(k) && !(
                    slots@.take(i as int).contains(k) && is_stale(before[k], now, window)),
                forall|k: usize| #[trigger]
                    self.last_seen@.contains_key(k) ==> self.last_seen@[k] == before[k],
                removed@.no_duplicates(),
                forall|id: ExeId| #[trigger]
                    removed@.contains(id) <==> slots@.take(i as int).contains(id.0) && is_stale(
                        before[id.0],
                        now,
                        window,
                    ),
            decreases slots@.len() - i,
        {
            let slot = slots[i];
            let ghost head = slots@.take(i as int);
            proof {
                assert(slots@.take(i + 1) =~= head.push(slot));
                assert(slots@.contains(slot));
                assert forall|k: usize| slots@.take(i + 1).contains(k) == (head.contains(k) || k
                    == slot) by {
                    lemma_pushed_contains(head, slot, k);
                }
                if head.contains(slot) {
                    let j = choose|j: int| 0 <= j < head.len() && head[j] == slot;
                    assert(slots@[j] == slots@[i as int]);
                }
            }
            let last = match self.last_seen.get(&slot) {
                Some(t) => *t,
                None => now,
            };
            let age = if now >= last {
                now - last
            } else {
                0
            };
            if age > window {
                let ghost taken = removed@;
                self.last_seen.remove(&slot);
                removed.push(ExeId(slot));
                proof {
                    assert forall|id: ExeId| #[trigger]
                        removed@.contains(id) <==> slots@.take(i + 1).contains(id.0) && is_stale(
                            before[id.0],
                            now,
                            window,
                        ) by {
                        lemma_pushed_contains(taken, ExeId(slot), id);
                    }
                    lemma_pushed_contains(taken, ExeId(slot), ExeId(slot));
                }
            }
            i += 1;
        }
        proof {
            assert(slots@.take(i as int) =~= slots@);
            assert(self@ =~= Self::pruned(by_id(before), now, window));
        }
        removed
    }

    /// The active executables, each once.
    pub fn exes(&self) -> (r: Vec<ExeId>)
        requires
            self.wf(),
        ensures
            r@.no_duplicates(),
            forall|id: ExeId| r@.contains(id) <==> self@.contains_key(id),
    {
        let slots = self.slots();
        let mut r: Vec<ExeId> = Vec::new();
        let mut i: usize = 0;
        while i < slots.len()
            invariant
                i <= slots@.len(),
                r@.len() == i,
                forall|j: int| 0 <= j < i ==> r@[j] == ExeId(slots@[j]),
            decreases slots@.len() - i,
        {
            r.push(ExeId(slots[i]));
            i += 1;
        }
        proof {
            assert forall|a: int, b: int|
                0 <= a < r@.len() && 0 <= b < r@.len() && a != b implies r@[a] != r@[b] by {
                assert(slots@[a] != slots@[b]);
            }
            assert forall|id: ExeId| r@.contains(id) <==> self@.contains_key(id) by {
                if r@.contains(id) {
                    let j = choose|j: int| 0 <= j < r@.len() && r@[j] == id;
                    assert(slots@.contains(slots@[j]));
                }
                if self@.contains_key(id) {
                    assert(slots@.contains(id.0));
                    let j = choose|j: int| 0 <= j < slots@.len() && slots@[j] == id.0;
                    assert(r@[j] == id);
                }
            }
        }
        r
    }
}

} // verus!
