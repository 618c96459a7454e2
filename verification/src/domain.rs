//! Identifiers, map segments, executables and the state of a Markov edge.

use vstd::prelude::*;
use vstd::string::StringExecFns;

verus! {

/// Stable identifier of an executable: the number of its slot in the store.
#[derive(Clone, Copy, Debug, PartialEq, Eq, Structural, Hash)]
pub struct ExeId(pub usize);

/// Stable identifier of a map segment: the number of its slot in the store.
#[derive(Clone, Copy, Debug, PartialEq, Eq, Structural, Hash)]
pub struct MapId(pub usize);

/// External identity of an executable: its absolute canonical path.
#[derive(Clone, Debug, PartialEq, Eq, Hash)]
pub struct ExeKey(String);

impl View for ExeKey {
    type V = Seq<char>;

    closed spec fn view(&self) -> Seq<char> {
        self.0@
    }
}

impl ExeKey {
    pub fn new(path: &str) -> (r: Self)
        ensures
            r@ == path@,
    {
        ExeKey(String::from_str(path))
    }

    pub fn path(&self) -> (r: &String)
        ensures
            r@ == self@,
    {
        &self.0
    }

    /// Whether both keys name the same path.
    pub fn same_as(&self, other: &ExeKey) -> (r: bool)
        ensures
            r == (self@ == other@),
    {
        self.0 == other.0
    }

    /// A key for the same path.
    pub fn duplicate(&self) -> (r: Self)
        ensures
            r@ == self@,
    {
        ExeKey(self.0.clone())
    }
}

/// What a map key stands for: the file and the region within it.
pub ghost struct MapKeyView {
    pub path: Seq<char>,
    pub offset: u64,
    pub length: u64,
}

/// External identity of a file-backed memory region.
#[derive(Clone, Debug, PartialEq, Eq, Hash)]
pub struct MapKey {
    pub path: String,
    pub offset: u64,
    pub length: u64,
}

impl View for MapKey {
    type V = MapKeyView;

    open spec fn view(&self) -> MapKeyView {
        MapKeyView { path: self.path@, offset: self.offset, length: self.length }
    }
}

impl MapKey {
    pub fn new(path: &str, offset: u64, length: u64) -> (r: Self)
        ensures
            r@ == (MapKeyView { path: path@, offset, length }),
    {
        MapKey { path: String::from_str(path), offset, length }
    }

    /// Whether both keys name the same region of the same file.
    pub fn same_as(&self, other: &MapKey) -> (r: bool)
        ensures
            r == (self@ == other@),
    {
        self.offset == other.offset && self.length == other.length && self.path == other.path
    }
}

/// What a map segment stands for.
pub ghost struct MapSegmentView {
    pub path: Seq<char>,
    pub offset: u64,
    pub length: u64,
    pub update_time: u64,
}

impl MapSegmentView {
    /// The identity of the segment.
    pub open spec fn key(self) -> MapKeyView {
        MapKeyView { path: self.path, offset: self.offset, length: self.length }
    }
}

/// A file-backed memory region and the model time at which a scan last saw it.
#[derive(Clone, Debug, PartialEq, Eq)]
pub struct MapSegment {
    pub path: String,
    pub offset: u64,
    pub length: u64,
    pub update_time: u64,
}

impl View for MapSegment {
    type V = MapSegmentView;

    open spec fn view(&self) -> MapSegmentView {
        MapSegmentView {
            path: self.path@,
            offset: self.offset,
            length: self.length,
            update_time: self.update_time,
        }
    }
}

impl MapSegment {
    pub fn new(path: &str, offset: u64, length: u64, update_time: u64) -> (r: Self)
        ensures
            r@ == (MapSegmentView { path: path@, offset, length, update_time }),
    {
        MapSegment { path: String::from_str(path), offset, length, update_time }
    }

    pub fn key(&self) -> (r: MapKey)
        ensures
            r@ == self@.key(),
    {
        MapKey { path: self.path.clone(), offset: self.offset, length: self.length }
    }

    /// Whether `key` is the identity of this segment.
    pub fn has_key(&self, key: &MapKey) -> (r: bool)
        ensures
            r == (self@.key() == key@),
    {
        self.offset == key.offset && self.length == key.length && self.path == key.path
    }

    /// A segment with the same contents.
    pub fn duplicate(&self) -> (r: Self)
        ensures
            r@ == self@,
    {
        MapSegment {
            path: self.path.clone(),
            offset: self.offset,
            length: self.length,
            update_time: self.update_time,
        }
    }
}

/// What an executable record stands for.
pub ghost struct ExeView {
    pub path: Seq<char>,
    pub total_running_time: u64,
    pub last_seen_time: Option<u64>,
    pub running: bool,
    pub change_time: u64,
}

/// An executable and what the model has learnt of it.
#[derive(Clone, Debug, PartialEq, Eq)]
pub struct Exe {
    pub key: ExeKey,
    /// Model time accumulated while the executable was seen running.
    pub total_running_time: u64,
    /// Model time of the last scan that saw it, if any did.
    pub last_seen_time: Option<u64>,
    /// Whether the latest scan saw it.
    pub running: bool,
    /// Model time at which `running` last flipped.
    pub change_time: u64,
}

impl View for Exe {
    type V = ExeView;

    open spec fn view(&self) -> ExeView {
        ExeView {
            path: self.key@,
            total_running_time: self.total_running_time,
            last_seen_time: self.last_seen_time,
            running: self.running,
            change_time: self.change_time,
        }
    }
}

impl ExeView {
    /// The record of an executable that no scan has seen yet.
    pub open spec fn fresh(path: Seq<char>) -> ExeView {
        ExeView {
            path,
            total_running_time: 0,
            last_seen_time: None,
            running: false,
            change_time: 0,
        }
    }
}

impl Exe {
    pub fn new(key: ExeKey) -> (r: Self)
        ensures
            r@ == ExeView::fresh(key@),
    {
        Exe { key, total_running_time: 0, last_seen_time: None, running: false, change_time: 0 }
    }

    /// A record with the same contents.
    pub fn duplicate(&self) -> (r: Self)
        ensures
            r@ == self@,
    {
        Exe {
            key: self.key.duplicate(),
            total_running_time: self.total_running_time,
            last_seen_time: self.last_seen_time,
            running: self.running,
            change_time: self.change_time,
        }
    }
}

/// Joint running state of the two executables of an edge.
#[derive(Clone, Copy, Debug, PartialEq, Eq, Structural)]
pub enum MarkovState {
    Neither,
    AOnly,
    BOnly,
    Both,
}

impl MarkovState {
    /// The running flags that the state stands for, first `a` then `b`.
    pub open spec fn flags(self) -> (bool, bool) {
        match self {
            MarkovState::Neither => (false, false),
            MarkovState::AOnly => (true, false),
            MarkovState::BOnly => (false, true),
            MarkovState::Both => (true, true),
        }
    }

    /// Position of the state in the per-state statistics.
    pub open spec fn spec_index(self) -> int {
        match self {
            MarkovState::Neither => 0,
            MarkovState::AOnly => 1,
            MarkovState::BOnly => 2,
            MarkovState::Both => 3,
        }
    }

    /// The state in which `a` and `b` run as given.
    pub open spec fn of(a: bool, b: bool) -> MarkovState {
        if a {
            if b {
                MarkovState::Both
            } else {
                MarkovState::AOnly
            }
        } else {
            if b {
                MarkovState::BOnly
            } else {
                MarkovState::Neither
            }
        }
    }

    pub fn from_running(a: bool, b: bool) -> (r: Self)
        ensures
            r == Self::of(a, b),
            r.flags() == (a, b),
    {
        match (a, b) {
            (false, false) => MarkovState::Neither,
            (true, false) => MarkovState::AOnly,
            (false, true) => MarkovState::BOnly,
            (true, true) => MarkovState::Both,
        }
    }

    pub fn index(self) -> (r: usize)
        ensures
            r == self.spec_index(),
            r < 4,
    {
        match self {
            MarkovState::Neither => 0,
            MarkovState::AOnly => 1,
            MarkovState::BOnly => 2,
            MarkovState::Both => 3,
        }
    }
}

impl Default for MarkovState {
    fn default() -> (r: Self)
        ensures
            r == MarkovState::Neither,
    {
        MarkovState::Neither
    }
}

/// What a state change asks of the decayed statistics of an edge: the
/// state that was left, the state that was entered, and the two spans of
/// model time that weigh the update.
#[derive(Clone, Copy, Debug, PartialEq, Eq, Structural)]
pub struct Transition {
    pub from: MarkovState,
    pub to: MarkovState,
    /// Model time since the pair last left `from` before this change.
    pub since_left: u64,
    /// Model time the pair dwelt in `from`.
    pub since_change: u64,
}

/// Markov state of an unordered pair of executables.
///
/// The dwell times and the transition probabilities are single-precision
/// numbers. This library carries each as the 32 bits of its encoding and
/// never looks inside one.
#[derive(Clone, Copy, Debug)]
pub struct MarkovEdge {
    pub state: MarkovState,
    /// Model time at which `state` last changed.
    pub last_change_time: u64,
    /// For each state, the model time at which the pair last left it.
    pub state_last_left: [u64; 4],
    /// For each state, the decayed mean dwell time, encoded.
    pub time_to_leave: [u32; 4],
    /// For each ordered pair of states, the decayed transition estimate, encoded.
    pub transition_prob: [[u32; 4]; 4],
    /// Model time accumulated while both executables ran.
    pub both_running_time: u64,
}

/// `now - then`, or zero where `then` lies after `now`.
pub open spec fn elapsed(now: u64, then: u64) -> u64 {
    if now >= then {
        (now - then) as u64
    } else {
        0
    }
}

/// `a + b`, or the largest value where the sum does not fit.
pub open spec fn capped_sum(a: u64, b: u64) -> u64 {
    if a + b > u64::MAX {
        u64::MAX
    } else {
        (a + b) as u64
    }
}

impl MarkovEdge {
    /// The edge as it is created at `now` in `state`: nothing learnt yet.
    pub open spec fn fresh(state: MarkovState, now: u64) -> MarkovEdge {
        MarkovEdge {
            state,
            last_change_time: now,
            state_last_left: [now, now, now, now],
            time_to_leave: [0u32, 0u32, 0u32, 0u32],
            transition_prob: [
                [0u32, 0u32, 0u32, 0u32],
                [0u32, 0u32, 0u32, 0u32],
                [0u32, 0u32, 0u32, 0u32],
                [0u32, 0u32, 0u32, 0u32],
            ],
            both_running_time: 0,
        }
    }

    pub fn new(state: MarkovState, now: u64) -> (r: Self)
        ensures
            r == Self::fresh(state, now),
    {
        MarkovEdge {
            state,
            last_change_time: now,
            state_last_left: [now, now, now, now],
            time_to_leave: [0u32, 0u32, 0u32, 0u32],
            transition_prob: [
                [0u32, 0u32, 0u32, 0u32],
                [0u32, 0u32, 0u32, 0u32],
                [0u32, 0u32, 0u32, 0u32],
                [0u32, 0u32, 0u32, 0u32],
            ],
            both_running_time: 0,
        }
    }

    /// What `transition` reports for a change to `new_state` at `now`.
    pub open spec fn pending(self, new_state: MarkovState, now: u64) -> Option<Transition> {
        if new_state == self.state {
            None
        } else {
            Some(
                Transition {
                    from: self.state,
                    to: new_state,
                    since_left: elapsed(now, self.state_last_left@[self.state.spec_index()]),
                    since_change: elapsed(now, self.last_change_time),
                },
            )
        }
    }

    /// The integer side of the edge after a change to `new_state` at `now`.
    pub open spec fn moved(self, new_state: MarkovState, now: u64) -> MarkovEdge {
        if new_state == self.state {
            self
        } else {
            MarkovEdge {
                state: new_state,
                last_change_time: now,
                state_last_left: [
                    if self.state == MarkovState::Neither { now } else { self.state_last_left@[0] },
                    if self.state == MarkovState::AOnly { now } else { self.state_last_left@[1] },
                    if self.state == MarkovState::BOnly { now } else { self.state_last_left@[2] },
                    if self.state == MarkovState::Both { now } else { self.state_last_left@[3] },
                ],
                ..self
            }
        }
    }

    /// Records that the pair went over to `new_state` at `now`.
    ///
    /// A change to the current state is no change: the edge stays as it is
    /// and nothing is reported. Otherwise the state, the time of the change
    /// and the time at which the old state was left are brought up to date,
    /// and the spans that weigh the decayed update are reported. The encoded
    /// statistics are left for the caller to update from that report.
    pub fn transition(&mut self, new_state: MarkovState, now: u64) -> (r: Option<Transition>)
        ensures
            r == old(self).pending(new_state, now),
            *final(self) == old(self).moved(new_state, now),
    {
        if new_state == self.state {
            return None;
        }
        let old_state = self.state;
        let old_ix = old_state.index();
        let left = self.state_last_left[old_ix];
        let since_left = if now >= left { now - left } else { 0 };
        let since_change = if now >= self.last_change_time {
            now - self.last_change_time
        } else {
            0
        };
        let l0 = if old_ix == 0 { now } else { self.state_last_left[0] };
        let l1 = if old_ix == 1 { now } else { self.state_last_left[1] };
        let l2 = if old_ix == 2 { now } else { self.state_last_left[2] };
        let l3 = if old_ix == 3 { now } else { self.state_last_left[3] };
        self.state_last_left = [l0, l1, l2, l3];
        self.last_change_time = now;
        self.state = new_state;
        Some(Transition { from: old_state, to: new_state, since_left, since_change })
    }

    /// Adds `span` to the time both executables ran, if the edge is in `Both`.
    pub open spec fn accounted(self, span: u64) -> MarkovEdge {
        if self.state == MarkovState::Both {
            MarkovEdge { both_running_time: capped_sum(self.both_running_time, span), ..self }
        } else {
            self
        }
    }

    /// Accounts `span` of model time to the edge: it counts where the edge is
    /// in `Both`, and the total stops at the largest value.
    pub fn account(&mut self, span: u64)
        ensures
            *final(self) == old(self).accounted(span),
    {
        if self.state == MarkovState::Both {
            self.both_running_time = self.both_running_time.saturating_add(span);
        }
    }
}

/// Memory figures of one scan, in kilobytes, and the paging counters.
#[derive(Clone, Copy, Debug, PartialEq, Eq, Structural)]
pub struct MemStat {
    pub total: u64,
    pub free: u64,
    pub cached: u64,
    pub pagein: i64,
    pub pageout: i64,
}

} // verus!
