//! The model updater: it folds the events of one scan into the stores.

use vstd::prelude::*;
use crate::domain::{
    capped_sum, elapsed, ExeId, ExeKey, MapSegment, MapSegmentView, MarkovState, Transition,
};
use crate::observation::{
    events_view, AdmissionPolicy, EventView, ModelDelta, ObservationEvent,
};
use crate::stores::edge_key::EdgeKey;
use crate::stores::records::{exe_slot, MapStore};
use crate::stores::state::{extends, Stores, StoresView};

verus! {

/// A Markov edge that changed its state, and what the change asks of its
/// decayed statistics.
#[derive(Clone, Copy, Debug, PartialEq, Eq, Structural)]
pub struct EdgeTransition {
    pub key: EdgeKey,
    pub transition: Transition,
}

/// What one pass of the updater did.
#[derive(Clone, Debug)]
pub struct Update {
    /// What the pass added and dropped.
    pub delta: ModelDelta,
    /// The edges that changed their state, in the order of the graph. The
    /// pass has brought the times of these edges up to date; the decayed
    /// statistics of each are left to be updated from what is listed here.
    pub transitions: Vec<EdgeTransition>,
}

/// Whether each executable of `v` runs.
pub open spec fn running_flags(v: StoresView) -> Seq<bool> {
    Seq::new(v.exes.len(), |i: int| v.exes[i].running)
}

/// The stores with the first `n` executables marked as not running.
pub open spec fn cleared(v: StoresView, n: nat) -> StoresView
    decreases n,
{
    if n == 0 {
        v
    } else {
        cleared(v, (n - 1) as nat).set_running(ExeId((n - 1) as usize), false)
    }
}

/// Bytes of the maps that `events` report for the executable at `path`;
/// the sum stops at the largest value.
pub open spec fn mapped_bytes(events: Seq<EventView>, path: Seq<char>) -> u64
    decreases events.len(),
{
    if events.len() == 0 {
        0
    } else {
        let rest = mapped_bytes(events.drop_last(), path);
        match events.last() {
            EventView::MapSeen { exe_path, map } => if exe_path == path {
                capped_sum(rest, map.length)
            } else {
                rest
            },
            _ => rest,
        }
    }
}

/// The stores after a scan saw the executable at `path` running.
///
/// Nothing changes where the executable was refused before. An executable
/// that the stores hold runs and was last seen now. An unknown executable
/// is put to the admission policy with the bytes that the scan reports as
/// mapped by it: if admitted it is inserted, runs and was last seen now;
/// otherwise it is remembered as refused, with those bytes.
pub open spec fn absorb_exe<A: AdmissionPolicy>(
    v: StoresView,
    path: Seq<char>,
    events: Seq<EventView>,
    policy: A,
) -> StoresView {
    if v.is_bad(path) {
        v
    } else {
        match exe_slot(v.exes, path) {
            Some(id) => v.mark_seen(id, v.model_time),
            None => if policy.admits(path, mapped_bytes(events, path)) {
                v.ensure_exe(path).mark_seen(ExeId(v.exes.len() as usize), v.model_time)
            } else {
                StoresView {
                    bad_exes: v.bad_exes.push((path, mapped_bytes(events, path))),
                    ..v
                }
            },
        }
    }
}

/// The stores after a scan saw `map` in the address space of the
/// executable at `exe_path`: where the stores hold the executable, the map
/// is inserted or its update time set to now, and the two are related.
pub open spec fn absorb_map(v: StoresView, exe_path: Seq<char>, map: MapSegmentView) -> StoresView {
    match exe_slot(v.exes, exe_path) {
        Some(id) => {
            let seen = MapSegmentView { update_time: v.model_time, ..map };
            v.ensure_map(seen).attach_map(id, MapStore::ensured(v.maps, seen).1)
        },
        None => v,
    }
}

/// An executable that is unknown and that the policy refuses is
/// remembered as refused, with the bytes that the scan reports as mapped
/// by it, and nothing else changes: it gets no record and no identifier.
/// From then on a scan that sees it leaves the stores as they are, whatever
/// it reports of it.
pub proof fn lemma_refused_exe<A: AdmissionPolicy>(
    v: StoresView,
    path: Seq<char>,
    events: Seq<EventView>,
    policy: A,
    later_events: Seq<EventView>,
    later_policy: A,
)
    requires
        !v.is_bad(path),
        exe_slot(v.exes, path) is None,
        !policy.admits(path, mapped_bytes(events, path)),
    ensures
        absorb_exe(v, path, events, policy) == (StoresView {
            bad_exes: v.bad_exes.push((path, mapped_bytes(events, path))),
            ..v
        }),
        absorb_exe(v, path, events, policy).is_bad(path),
        exe_slot(absorb_exe(v, path, events, policy).exes, path) is None,
        absorb_exe(absorb_exe(v, path, events, policy), path, later_events, later_policy)
            == absorb_exe(v, path, events, policy),
{
    let w = absorb_exe(v, path, events, policy);
    assert(w.bad_exes[v.bad_exes.len() as int].0 == path);
}

/// The map of an executable that the stores do not hold is passed over:
/// the stores stay as they are.
pub proof fn lemma_map_of_unknown_exe(v: StoresView, exe_path: Seq<char>, map: MapSegmentView)
    requires
        exe_slot(v.exes, exe_path) is None,
    ensures
        absorb_map(v, exe_path, map) == v,
{
}

/// The stores after the event `event` of the stream `events`.
pub open spec fn absorb_event<A: AdmissionPolicy>(
    v: StoresView,
    event: EventView,
    events: Seq<EventView>,
    policy: A,
) -> StoresView {
    match event {
        EventView::ExeSeen { path, pid } => absorb_exe(v, path, events, policy),
        EventView::MapSeen { exe_path, map } => absorb_map(v, exe_path, map),
        _ => v,
    }
}

/// The stores after the first `n` events of `events`.
pub open spec fn absorbed<A: AdmissionPolicy>(
    v: StoresView,
    events: Seq<EventView>,
    n: nat,
    policy: A,
) -> StoresView
    decreases n,
{
    if n == 0 {
        v
    } else {
        absorb_event(absorbed(v, events, (n - 1) as nat, policy), events[n - 1], events, policy)
    }
}

/// Whether the executable in slot `i` ran before the scan.
pub open spec fn ran_before(was: Seq<bool>, i: int) -> bool {
    0 <= i < was.len() && was[i]
}

/// The stores after each of the first `n` executables whose running flag
/// differs from what it was before the scan got now as its change time.
pub open spec fn stamped(v: StoresView, was: Seq<bool>, n: nat) -> StoresView
    decreases n,
{
    if n == 0 {
        v
    } else {
        let w = stamped(v, was, (n - 1) as nat);
        if w.runs(ExeId((n - 1) as usize)) != ran_before(was, n - 1) {
            w.set_change_time(ExeId((n - 1) as usize), w.model_time)
        } else {
            w
        }
    }
}

/// The stores after each of the first `n` executables that runs was made
/// active as of now.
pub open spec fn activated(v: StoresView, n: nat) -> StoresView
    decreases n,
{
    if n == 0 {
        v
    } else {
        let w = activated(v, (n - 1) as nat);
        if w.runs(ExeId((n - 1) as usize)) {
            w.touch_active(ExeId((n - 1) as usize), w.model_time)
        } else {
            w
        }
    }
}

/// Whether the executables `a` and `b` are to have an edge: one of them
/// runs and the other is active.
pub open spec fn wants_edge(v: StoresView, a: ExeId, b: ExeId) -> bool {
    (v.runs(a) && v.active.contains_key(b)) || (v.runs(b) && v.active.contains_key(a))
}

/// The stores after the executable in slot `a` got its edges to the
/// executables in the slots above `a` and below `nb`.
pub open spec fn connect_row(v: StoresView, a: nat, nb: nat) -> StoresView
    decreases nb,
{
    if nb == 0 {
        v
    } else {
        let w = connect_row(v, a, (nb - 1) as nat);
        let x = ExeId(a as usize);
        let y = ExeId((nb - 1) as usize);
        if a < nb - 1 && wants_edge(w, x, y) {
            w.ensure_markov_edge(x, y, w.model_time, w.state_of(EdgeKey(x, y)))
        } else {
            w
        }
    }
}

/// The stores after each of the first `na` executables got its edges to
/// the executables in the slots above it and below `n`.
pub open spec fn connect_rows(v: StoresView, na: nat, n: nat) -> StoresView
    decreases na,
{
    if na == 0 {
        v
    } else {
        connect_row(connect_rows(v, (na - 1) as nat, n), (na - 1) as nat, n)
    }
}

/// The stores after the first `n` edges were brought to the joint running
/// state of their executables.
pub open spec fn settled(v: StoresView, n: nat) -> StoresView
    decreases n,
{
    if n == 0 {
        v
    } else {
        let w = settled(v, (n - 1) as nat);
        w.settle_edge(n - 1, w.model_time)
    }
}

/// The changes of state among the first `n` edges of `v`.
pub open spec fn pending_all(v: StoresView, n: nat) -> Seq<EdgeTransition>
    decreases n,
{
    if n == 0 {
        Seq::empty()
    } else {
        let rest = pending_all(v, (n - 1) as nat);
        let entry = v.markov[n - 1];
        match entry.1.pending(v.state_of(entry.0), v.model_time) {
            Some(t) => rest.push(EdgeTransition { key: entry.0, transition: t }),
            None => rest,
        }
    }
}

/// The stores after `span` was accounted to each of the first `n`
/// executables that runs.
pub open spec fn accounted_exes(v: StoresView, span: u64, n: nat) -> StoresView
    decreases n,
{
    if n == 0 {
        v
    } else {
        let w = accounted_exes(v, span, (n - 1) as nat);
        if w.runs(ExeId((n - 1) as usize)) {
            w.add_running_time(ExeId((n - 1) as usize), span)
        } else {
            w
        }
    }
}

/// The stores after `span` was accounted to each of the first `n` edges.
pub open spec fn accounted_edges(v: StoresView, span: u64, n: nat) -> StoresView
    decreases n,
{
    if n == 0 {
        v
    } else {
        accounted_edges(v, span, (n - 1) as nat).account_edge(n - 1, span)
    }
}

/// The stores after the time since the last accounting was accounted to
/// the executables that run and to the edges in `Both`.
pub open spec fn accounted(v: StoresView) -> StoresView {
    let span = elapsed(v.model_time, v.last_accounting_time);
    let with_exes = accounted_exes(v, span, v.exes.len());
    StoresView {
        last_accounting_time: v.model_time,
        ..accounted_edges(with_exes, span, with_exes.markov.len())
    }
}

/// The stores after the scan was absorbed and the running flags, the
/// change times and the active set were brought up to date.
pub open spec fn observed<A: AdmissionPolicy>(
    v: StoresView,
    events: Seq<EventView>,
    policy: A,
    window: u64,
) -> StoresView {
    let seen = absorbed(cleared(v, v.exes.len()), events, events.len(), policy);
    let changed = stamped(seen, running_flags(v), seen.exes.len());
    activated(changed, changed.exes.len()).prune_active(v.model_time, window)
}

/// The stores after the edges between running and active executables
/// were created.
pub open spec fn linked<A: AdmissionPolicy>(
    v: StoresView,
    events: Seq<EventView>,
    policy: A,
    window: u64,
) -> StoresView {
    let o = observed(v, events, policy, window);
    connect_rows(o, o.exes.len(), o.exes.len())
}

/// The stores after one pass of the updater over `events`.
pub open spec fn updated<A: AdmissionPolicy>(
    v: StoresView,
    events: Seq<EventView>,
    policy: A,
    window: u64,
) -> StoresView {
    let l = linked(v, events, policy, window);
    accounted(settled(l, l.markov.len()))
}

/// Folds observations into the stores.
#[derive(Clone, Copy, Debug, PartialEq, Eq, Structural)]
pub struct ModelUpdater {
    /// Model time for which an executable stays active after it was last
    /// seen.
    pub active_window: u64,
}

impl ModelUpdater {
    pub fn new(active_window: u64) -> (r: Self)
        ensures
            r.active_window == active_window,
    {
        ModelUpdater { active_window }
    }

    /// Folds the events of one scan into `stores`, at the model time of
    /// the stores.
    ///
    /// Every executable is taken as not running, then the events are gone
    /// through in order. Every executable whose running flag differs from
    /// what it was gets now as its change time. The executables that run
    /// become active as of now, those last seen longer ago than the active
    /// window leave the active set, and the edges of those that left are
    /// dropped. Each pair of a running and an active executable gets an
    /// edge if it has none. Each edge is brought to the joint running state
    /// of its executables; the edges that changed are listed in the result.
    /// At last the time since the last accounting is accounted to the
    /// executables that run and to the edges in `Both`.
    ///
    /// Afterwards both executables of every edge are active, and no record
    /// has changed its identifier.
    pub fn apply<A: AdmissionPolicy>(
        &self,
        stores: &mut Stores,
        observation: &Vec<ObservationEvent>,
        admission: &A,
    ) -> (r: Update)
        requires
            old(stores).wf(),
        ensures
            final(stores).wf(),
            final(stores)@ == updated(
                old(stores)@,
                events_view(observation@),
                *admission,
                self.active_window,
            ),
            r.transitions@ == pending_all(
                linked(old(stores)@, events_view(observation@), *admission, self.active_window),
                linked(
                    old(stores)@,
                    events_view(observation@),
                    *admission,
                    self.active_window,
                ).markov.len(),
            ),
            r.delta.new_exes == final(stores)@.exes.len() - old(stores)@.exes.len(),
            r.delta.new_maps == final(stores)@.maps.len() - old(stores)@.maps.len(),
            r.delta.new_edges == final(stores)@.markov.len() - observed(
                old(stores)@,
                events_view(observation@),
                *admission,
                self.active_window,
            ).markov.len(),
            r.delta.pruned_edges == old(stores)@.markov.len() - observed(
                old(stores)@,
                events_view(observation@),
                *admission,
                self.active_window,
            ).markov.len(),
            extends(old(stores)@, final(stores)@),
            final(stores)@.edges_active(),
            old(stores)@.times_consistent() ==> final(stores)@.times_consistent(),
    {
        let exes_before = stores.exes().len();
        let maps_before = stores.maps().len();
        let was = clear_running(stores);
        absorb(stores, observation, admission);
        stamp_changes(stores, &was);
        let pruned_edges = refresh_active(stores, self.active_window);
        let edges_before = stores.markov().len();
        connect(stores);
        let new_edges = stores.markov().len() - edges_before;
        let transitions = settle(stores);
        account(stores);
        Update {
            delta: ModelDelta {
                new_exes: stores.exes().len() - exes_before,
                new_maps: stores.maps().len() - maps_before,
                new_edges,
                pruned_edges,
            },
            transitions,
        }
    }
}

/// Nothing but the running flags and the change times of executables
/// differs between `before` and `after`.
pub open spec fn same_but_exes(before: StoresView, after: StoresView) -> bool {
    &&& after.maps == before.maps
    &&& after.exe_maps == before.exe_maps
    &&& after.markov == before.markov
    &&& after.active == before.active
    &&& after.bad_exes == before.bad_exes
    &&& after.last_accounting_time == before.last_accounting_time
    &&& after.exes.len() == before.exes.len()
    &&& forall|i: int|
        0 <= i < before.exes.len() ==> (#[trigger] after.exes[i]).total_running_time
            == before.exes[i].total_running_time && after.exes[i].last_seen_time
            == before.exes[i].last_seen_time
}

fn clear_running(stores: &mut Stores) -> (was: Vec<bool>)
    requires
        old(stores).wf(),
    ensures
        final(stores).wf(),
        was@ == running_flags(old(stores)@),
        final(stores)@ == cleared(old(stores)@, old(stores)@.exes.len()),
        extends(old(stores)@, final(stores)@),
        same_but_exes(old(stores)@, final(stores)@),
{
    let mut was: Vec<bool> = Vec::new();
    let count = stores.exes().len();
    let mut i: usize = 0;
    while i < count
        invariant
            i <= count,
            count == old(stores)@.exes.len(),
            stores.wf(),
            stores@ == cleared(old(stores)@, i as nat),
            extends(old(stores)@, stores@),
            same_but_exes(old(stores)@, stores@),
            forall|k: int| i <= k < count ==> stores@.exes[k] == old(stores)@.exes[k],
            was@.len() == i,
            forall|k: int| 0 <= k < i ==> was@[k] == old(stores)@.exes[k].running,
        decreases count - i,
    {
        was.push(stores.exe_runs(ExeId(i)));
        stores.set_running(ExeId(i), false);
        i += 1;
    }
    assert(was@ =~= running_flags(old(stores)@));
    was
}

fn mapped_size(observation: &Vec<ObservationEvent>, path: &String) -> (r: u64)
    ensures
        r == mapped_bytes(events_view(observation@), path@),
{
    let ghost events = events_view(observation@);
    let mut total: u64 = 0;
    let mut i: usize = 0;
    while i < observation.len()
        invariant
            i <= observation@.len(),
            events == events_view(observation@),
            total == mapped_bytes(events.take(i as int), path@),
        decreases observation@.len() - i,
    {
        proof {
            assert(events.take(i + 1).drop_last() =~= events.take(i as int));
            assert(events.take(i + 1).last() == observation@[i as int]@);
        }
        match &observation[i] {
            ObservationEvent::MapSeen { exe_path, map } => {
                if *exe_path == *path {
                    total = total.saturating_add(map.length);
                }
            },
            _ => {},
        }
        i += 1;
    }
    assert(events.take(i as int) =~= events);
    total
}

fn absorb<A: AdmissionPolicy>(
    stores: &mut Stores,
    observation: &Vec<ObservationEvent>,
    admission: &A,
)
    requires
        old(stores).wf(),
    ensures
        final(stores).wf(),
        final(stores)@ == absorbed(
            old(stores)@,
            events_view(observation@),
            observation@.len() as nat,
            *admission,
        ),
        extends(old(stores)@, final(stores)@),
        final(stores)@.markov == old(stores)@.markov,
        final(stores)@.active == old(stores)@.active,
        final(stores)@.last_accounting_time == old(stores)@.last_accounting_time,
        old(stores)@.times_consistent() ==> final(stores)@.times_consistent(),
{
    let ghost events = events_view(observation@);
    let now = stores.model_time();
    let mut i: usize = 0;
    while i < observation.len()
        invariant
            i <= observation@.len(),
            events == events_view(observation@),
            stores.wf(),
            now == old(stores)@.model_time,
            stores@ == absorbed(old(stores)@, events, i as nat, *admission),
            extends(old(stores)@, stores@),
            stores@.markov == old(stores)@.markov,
            stores@.active == old(stores)@.active,
            stores@.last_accounting_time == old(stores)@.last_accounting_time,
            old(stores)@.times_consistent() ==> stores@.times_consistent(),
        decreases observation@.len() - i,
    {
        let ghost before = stores@;
        proof {
            stores.lemma_valid();
            assert(events[i as int] == observation@[i as int]@);
        }
        match &observation[i] {
            ObservationEvent::ExeSeen { path, pid } => {
                if !stores.is_bad_exe(path) {
                    match stores.exes().id_by_key(&ExeKey::new(path.as_str())) {
                        Some(id) => {
                            stores.mark_seen(id, now);
                        },
                        None => {
                            let size = mapped_size(observation, path);
                            if admission.accept(path.as_str(), size) {
                                let id = stores.ensure_exe(ExeKey::new(path.as_str()));
                                stores.mark_seen(id, now);
                            } else {
                                stores.note_bad_exe(path.clone(), size);
                            }
                        },
                    }
                }
            },
            ObservationEvent::MapSeen { exe_path, map } => {
                match stores.exes().id_by_key(&ExeKey::new(exe_path.as_str())) {
                    Some(id) => {
                        let map_id = stores.ensure_map(
                            MapSegment {
                                path: map.path.clone(),
                                offset: map.offset,
                                length: map.length,
                                update_time: now,
                            },
                        );
                        stores.attach_map(id, map_id);
                    },
                    None => {},
                }
            },
            _ => {},
        }
        proof {
            lemma_step_extends(before, stores@);
        }
        i += 1;
    }
}

/// One event leaves every record that was there in its slot and under
/// its identity.
proof fn lemma_step_extends(before: StoresView, after: StoresView)
    requires
        before.valid(),
        after.model_time == before.model_time,
        after.exes.len() >= before.exes.len(),
        after.maps.len() >= before.maps.len(),
        forall|i: int| 0 <= i < before.exes.len() ==> (#[trigger] after.exes[i]).path == before.exes[i].path,
        forall|i: int| 0 <= i < before.maps.len() ==> (#[trigger] after.maps[i]).key() == before.maps[i].key(),
    ensures
        extends(before, after),
{
}

fn stamp_changes(stores: &mut Stores, was: &Vec<bool>)
    requires
        old(stores).wf(),
    ensures
        final(stores).wf(),
        final(stores)@ == stamped(old(stores)@, was@, old(stores)@.exes.len()),
        extends(old(stores)@, final(stores)@),
        same_but_exes(old(stores)@, final(stores)@),
        forall|i: int|
            0 <= i < old(stores)@.exes.len() ==> (#[trigger] final(stores)@.exes[i]).running
                == old(stores)@.exes[i].running,
{
    let now = stores.model_time();
    let count = stores.exes().len();
    let mut i: usize = 0;
    while i < count
        invariant
            i <= count,
            count == old(stores)@.exes.len(),
            now == old(stores)@.model_time,
            stores.wf(),
            stores@ == stamped(old(stores)@, was@, i as nat),
            extends(old(stores)@, stores@),
            same_but_exes(old(stores)@, stores@),
            forall|k: int|
                0 <= k < count ==> (#[trigger] stores@.exes[k]).running
                    == old(stores)@.exes[k].running,
        decreases count - i,
    {
        let before = i < was.len() && was[i];
        if stores.exe_runs(ExeId(i)) != before {
            stores.set_change_time(ExeId(i), now);
        }
        i += 1;
    }
}

/// Every executable that runs is active.
pub open spec fn running_are_active(v: StoresView) -> bool {
    forall|i: int|
        0 <= i < v.exes.len() && (#[trigger] v.exes[i]).running ==> v.active.contains_key(
            ExeId(i as usize),
        )
}

fn refresh_active(stores: &mut Stores, window: u64) -> (dropped: usize)
    requires
        old(stores).wf(),
    ensures
        final(stores).wf(),
        final(stores)@ == activated(old(stores)@, old(stores)@.exes.len()).prune_active(
            old(stores)@.model_time,
            window,
        ),
        final(stores)@.exes == old(stores)@.exes,
        final(stores)@.maps == old(stores)@.maps,
        final(stores)@.model_time == old(stores)@.model_time,
        final(stores)@.last_accounting_time == old(stores)@.last_accounting_time,
        final(stores)@.edges_active(),
        running_are_active(final(stores)@),
        dropped == old(stores)@.markov.len() - final(stores)@.markov.len(),
{
    let now = stores.model_time();
    let count = stores.exes().len();
    let mut i: usize = 0;
    while i < count
        invariant
            i <= count,
            count == old(stores)@.exes.len(),
            now == old(stores)@.model_time,
            stores.wf(),
            stores@ == activated(old(stores)@, i as nat),
            stores@.exes == old(stores)@.exes,
            stores@.maps == old(stores)@.maps,
            stores@.markov == old(stores)@.markov,
            stores@.model_time == old(stores)@.model_time,
            stores@.last_accounting_time == old(stores)@.last_accounting_time,
            forall|k: int|
                0 <= k < i && (#[trigger] stores@.exes[k]).running ==> stores@.active.contains_key(
                    ExeId(k as usize),
                ) && stores@.active[ExeId(k as usize)] == now,
        decreases count - i,
    {
        if stores.exe_runs(ExeId(i)) {
            stores.touch_active(ExeId(i), now);
        }
        i += 1;
    }
    let dropped = stores.prune_active(now, window);
    dropped
}

/// The row of `a` is empty as far as the slots up to `a` go.
proof fn lemma_row_start(v: StoresView, a: nat, nb: nat)
    requires
        nb <= a + 1,
    ensures
        connect_row(v, a, nb) == v,
    decreases nb,
{
    if nb > 0 {
        lemma_row_start(v, a, (nb - 1) as nat);
    }
}

fn connect(stores: &mut Stores)
    requires
        old(stores).wf(),
        old(stores)@.edges_active(),
        running_are_active(old(stores)@),
    ensures
        final(stores).wf(),
        final(stores)@ == connect_rows(
            old(stores)@,
            old(stores)@.exes.len(),
            old(stores)@.exes.len(),
        ),
        final(stores)@.exes == old(stores)@.exes,
        final(stores)@.maps == old(stores)@.maps,
        final(stores)@.active == old(stores)@.active,
        final(stores)@.model_time == old(stores)@.model_time,
        final(stores)@.last_accounting_time == old(stores)@.last_accounting_time,
        final(stores)@.markov.len() >= old(stores)@.markov.len(),
        final(stores)@.edges_active(),
{
    let now = stores.model_time();
    let count = stores.exes().len();
    let mut a: usize = 0;
    while a < count
        invariant
            a <= count,
            count == old(stores)@.exes.len(),
            now == old(stores)@.model_time,
            stores.wf(),
            stores@ == connect_rows(old(stores)@, a as nat, count as nat),
            stores@.exes == old(stores)@.exes,
            stores@.maps == old(stores)@.maps,
            stores@.active == old(stores)@.active,
            stores@.model_time == old(stores)@.model_time,
            stores@.last_accounting_time == old(stores)@.last_accounting_time,
            stores@.markov.len() >= old(stores)@.markov.len(),
            stores@.edges_active(),
            running_are_active(old(stores)@),
        decreases count - a,
    {
        let ghost row_start = stores@;
        let a_runs = stores.exe_runs(ExeId(a));
        let a_active = stores.active().contains(ExeId(a));
        let mut b: usize = a + 1;
        proof {
            lemma_row_start(row_start, a as nat, b as nat);
        }
        while b < count
            invariant
                a < count,
                a + 1 <= b <= count,
                count == old(stores)@.exes.len(),
                now == old(stores)@.model_time,
                stores.wf(),
                stores@ == connect_row(row_start, a as nat, b as nat),
                stores@.exes == old(stores)@.exes,
                stores@.maps == old(stores)@.maps,
                stores@.active == old(stores)@.active,
                stores@.model_time == old(stores)@.model_time,
                stores@.last_accounting_time == old(stores)@.last_accounting_time,
                stores@.markov.len() >= old(stores)@.markov.len(),
                stores@.edges_active(),
                running_are_active(old(stores)@),
                a_runs == old(stores)@.runs(ExeId(a)),
                a_active == old(stores)@.active.contains_key(ExeId(a)),
            decreases count - b,
        {
            let b_runs = stores.exe_runs(ExeId(b));
            let wanted = (a_runs && stores.active().contains(ExeId(b))) || (b_runs && a_active);
            if wanted {
                proof {
                    assert(old(stores)@.exes[a as int].running ==> old(
                        stores,
                    )@.active.contains_key(ExeId(a)));
                    assert(old(stores)@.exes[b as int].running ==> old(
                        stores,
                    )@.active.contains_key(ExeId(b)));
                }
                stores.ensure_markov_edge(
                    ExeId(a),
                    ExeId(b),
                    now,
                    MarkovState::from_running(a_runs, b_runs),
                );
            }
            b += 1;
        }
        a += 1;
    }
}

fn settle(stores: &mut Stores) -> (transitions: Vec<EdgeTransition>)
    requires
        old(stores).wf(),
    ensures
        final(stores).wf(),
        final(stores)@ == settled(old(stores)@, old(stores)@.markov.len()),
        transitions@ == pending_all(old(stores)@, old(stores)@.markov.len()),
        final(stores)@.exes == old(stores)@.exes,
        final(stores)@.maps == old(stores)@.maps,
        final(stores)@.active == old(stores)@.active,
        final(stores)@.model_time == old(stores)@.model_time,
        final(stores)@.last_accounting_time == old(stores)@.last_accounting_time,
        final(stores)@.markov.len() == old(stores)@.markov.len(),
        old(stores)@.edges_active() ==> final(stores)@.edges_active(),
{
    let now = stores.model_time();
    let count = stores.markov().len();
    let mut transitions: Vec<EdgeTransition> = Vec::new();
    let mut i: usize = 0;
    while i < count
        invariant
            i <= count,
            count == old(stores)@.markov.len(),
            now == old(stores)@.model_time,
            stores.wf(),
            stores@ == settled(old(stores)@, i as nat),
            transitions@ == pending_all(old(stores)@, i as nat),
            stores@.exes == old(stores)@.exes,
            stores@.maps == old(stores)@.maps,
            stores@.active == old(stores)@.active,
            stores@.model_time == old(stores)@.model_time,
            stores@.last_accounting_time == old(stores)@.last_accounting_time,
            stores@.markov.len() == old(stores)@.markov.len(),
            forall|k: int| i <= k < count ==> stores@.markov[k] == old(stores)@.markov[k],
            old(stores)@.edges_active() ==> stores@.edges_active(),
        decreases count - i,
    {
        let (key, _edge) = stores.markov().entry(i);
        match stores.settle_edge(i, now) {
            Some(transition) => {
                transitions.push(EdgeTransition { key, transition });
            },
            None => {},
        }
        i += 1;
    }
    transitions
}

fn account(stores: &mut Stores)
    requires
        old(stores).wf(),
    ensures
        final(stores).wf(),
        final(stores)@ == accounted(old(stores)@),
        extends(old(stores)@, final(stores)@),
        final(stores)@.exes.len() == old(stores)@.exes.len(),
        final(stores)@.maps == old(stores)@.maps,
        final(stores)@.markov.len() == old(stores)@.markov.len(),
        old(stores)@.edges_active() ==> final(stores)@.edges_active(),
        old(stores)@.times_consistent() ==> final(stores)@.times_consistent(),
{
    let now = stores.model_time();
    let last = stores.last_accounting_time();
    let span = if now >= last {
        now - last
    } else {
        0
    };
    let count = stores.exes().len();
    let mut i: usize = 0;
    while i < count
        invariant
            i <= count,
            count == old(stores)@.exes.len(),
            now == old(stores)@.model_time,
            last == old(stores)@.last_accounting_time,
            span == elapsed(now, last),
            stores.wf(),
            stores@ == accounted_exes(old(stores)@, span, i as nat),
            extends(old(stores)@, stores@),
            stores@.exes.len() == old(stores)@.exes.len(),
            stores@.maps == old(stores)@.maps,
            stores@.markov == old(stores)@.markov,
            stores@.active == old(stores)@.active,
            stores@.last_accounting_time == last,
            forall|k: int| i <= k < count ==> stores@.exes[k] == old(stores)@.exes[k],
            forall|k: int|
                0 <= k < count ==> (#[trigger] stores@.exes[k]).last_seen_time
                    == old(stores)@.exes[k].last_seen_time,
            old(stores)@.times_consistent() ==> forall|k: int|
                0 <= k < count ==> (#[trigger] stores@.exes[k]).total_running_time <= now,
        decreases count - i,
    {
        if stores.exe_runs(ExeId(i)) {
            stores.add_running_time(ExeId(i), span);
        }
        i += 1;
    }
    let ghost with_exes = stores@;
    let edges = stores.markov().len();
    let mut k: usize = 0;
    while k < edges
        invariant
            k <= edges,
            edges == with_exes.markov.len(),
            stores.wf(),
            stores@ == accounted_edges(with_exes, span, k as nat),
            stores@.exes == with_exes.exes,
            stores@.maps == with_exes.maps,
            stores@.active == with_exes.active,
            stores@.model_time == with_exes.model_time,
            stores@.last_accounting_time == with_exes.last_accounting_time,
            stores@.markov.len() == with_exes.markov.len(),
            with_exes.edges_active() ==> stores@.edges_active(),
        decreases edges - k,
    {
        stores.account_edge(k, span);
        k += 1;
    }
    stores.set_last_accounting_time(now);
}

} // verus!
