//! From the process table to the stream of events of one scan.
//!
//! The scanner reads the processes and their memory maps; this module
//! decides which of them are followed and puts the events in order.

use vstd::prelude::*;
use crate::domain::{elapsed, MapSegment, MapSegmentView, MemStat};
use crate::observation::{
    events_view, EventView, ObservationEvent, ScanWarning, ScanWarningView,
};
use crate::paths::{accept_file, accepts, sanitize_file, sanitized};

verus! {

/// What a raw map stands for.
pub ghost struct RawMapView {
    pub path: Seq<char>,
    pub start: u64,
    pub end: u64,
    pub offset: u64,
}

/// A file-backed region of the address space of a process, as it was read.
#[derive(Clone, Debug, PartialEq, Eq)]
pub struct RawMap {
    /// The path of the mapped file, as the kernel shows it.
    pub path: String,
    /// First address of the region.
    pub start: u64,
    /// Address behind the region.
    pub end: u64,
    /// Offset of the region in the file.
    pub offset: u64,
}

impl View for RawMap {
    type V = RawMapView;

    open spec fn view(&self) -> RawMapView {
        RawMapView { path: self.path@, start: self.start, end: self.end, offset: self.offset }
    }
}

/// What a raw process stands for.
pub ghost struct RawProcessView {
    pub pid: u32,
    pub exe: Seq<char>,
    pub maps: Result<Seq<RawMapView>, Seq<char>>,
}

/// A process as it was read.
#[derive(Debug, PartialEq, Eq)]
pub struct RawProcess {
    pub pid: u32,
    /// The path of the executable, as the kernel shows it.
    pub exe: String,
    /// The file-backed maps of the process, or why they could not be read.
    pub maps: Result<Vec<RawMap>, String>,
}

impl View for RawProcess {
    type V = RawProcessView;

    open spec fn view(&self) -> RawProcessView {
        RawProcessView {
            pid: self.pid,
            exe: self.exe@,
            maps: match self.maps {
                Ok(maps) => Ok(maps@.map_values(|m: RawMap| m@)),
                Err(reason) => Err(reason@),
            },
        }
    }
}

/// The path under which `path` is followed, if it is followed: its clean
/// form, where it has one that the prefixes accept.
pub open spec fn followed(path: Seq<char>, prefixes: Seq<&str>) -> Option<Seq<char>> {
    match sanitized(path) {
        Some(clean) => if accepts(clean, prefixes) {
            Some(clean)
        } else {
            None
        },
        None => None,
    }
}

/// The path under which `path` is followed, if it is followed.
pub fn follow(path: &str, prefixes: &[&str]) -> (r: Option<String>)
    ensures
        match r {
            Some(clean) => followed(path@, prefixes@) == Some(clean@),
            None => followed(path@, prefixes@) is None,
        },
{
    match sanitize_file(path) {
        Some(clean) => {
            if accept_file(clean, prefixes) {
                Some(clean.to_owned())
            } else {
                None
            }
        },
        None => None,
    }
}

/// The events of a scan so far, the warnings, and the executables seen.
pub ghost struct ScanState {
    pub events: Seq<EventView>,
    pub warnings: Seq<ScanWarningView>,
    pub seen: Seq<Seq<char>>,
}

/// The events for the first `n` maps of the executable at `exe_path`: one
/// for each map whose file is followed, of the length of its region, seen
/// at `now`.
pub open spec fn map_events(
    exe_path: Seq<char>,
    maps: Seq<RawMapView>,
    n: nat,
    prefixes: Seq<&str>,
    now: u64,
) -> Seq<EventView>
    decreases n,
{
    if n == 0 {
        Seq::empty()
    } else {
        let rest = map_events(exe_path, maps, (n - 1) as nat, prefixes, now);
        let m = maps[n - 1];
        match followed(m.path, prefixes) {
            Some(path) => rest.push(
                EventView::MapSeen {
                    exe_path,
                    map: MapSegmentView {
                        path,
                        offset: m.offset,
                        length: elapsed(m.end, m.start),
                        update_time: now,
                    },
                },
            ),
            None => rest,
        }
    }
}

/// The scan after the process `p`. A process whose executable is not
/// followed, or was seen in this scan already, leaves the scan as it is.
/// Any other gives the event of its executable, then those of its maps; if
/// its maps could not be read it gives a warning in their place.
pub open spec fn after_process(
    st: ScanState,
    p: RawProcessView,
    prefixes: Seq<&str>,
    now: u64,
) -> ScanState {
    match followed(p.exe, prefixes) {
        Some(exe_path) => if st.seen.contains(exe_path) {
            st
        } else {
            let exe_seen = EventView::ExeSeen { path: exe_path, pid: p.pid };
            match p.maps {
                Ok(maps) => ScanState {
                    events: st.events.push(exe_seen) + map_events(
                        exe_path,
                        maps,
                        maps.len(),
                        prefixes,
                        now,
                    ),
                    warnings: st.warnings,
                    seen: st.seen.push(exe_path),
                },
                Err(reason) => ScanState {
                    events: st.events.push(exe_seen),
                    warnings: st.warnings.push(ScanWarningView { pid: p.pid, reason }),
                    seen: st.seen.push(exe_path),
                },
            }
        },
        None => st,
    }
}

/// The scan after the first `n` processes.
pub open spec fn scanned(
    processes: Seq<RawProcessView>,
    n: nat,
    prefixes: Seq<&str>,
    now: u64,
) -> ScanState
    decreases n,
{
    if n == 0 {
        ScanState { events: Seq::empty(), warnings: Seq::empty(), seen: Seq::empty() }
    } else {
        after_process(
            scanned(processes, (n - 1) as nat, prefixes, now),
            processes[n - 1],
            prefixes,
            now,
        )
    }
}

/// The stream of events of the scan number `scan_id` at `now`.
pub open spec fn stream_of(
    now: u64,
    scan_id: u64,
    mem: MemStat,
    processes: Seq<RawProcessView>,
    prefixes: Seq<&str>,
) -> Seq<EventView> {
    let st = scanned(processes, processes.len(), prefixes, now);
    seq![EventView::ObsBegin { time: now, scan_id }, EventView::MemStat { mem }] + st.events
        + seq![EventView::ObsEnd { time: now, scan_id, warnings: st.warnings }]
}

/// The events between the memory figures and the end are in order: each
/// is the event of an executable or of a map, no executable has two
/// events, and the event of a map follows that of its executable.
pub open spec fn body_in_order(events: Seq<EventView>) -> bool {
    &&& forall|i: int|
        0 <= i < events.len() ==> (#[trigger] events[i]) is ExeSeen || events[i] is MapSeen
    &&& forall|i: int, j: int|
        0 <= i < j < events.len() && (#[trigger] events[i]) is ExeSeen && (
        #[trigger] events[j]) is ExeSeen ==> events[i]->ExeSeen_path != events[j]->ExeSeen_path
    &&& forall|i: int|
        0 <= i < events.len() && (#[trigger] events[i]) is MapSeen ==> exists|j: int|
            0 <= j < i && events[j] is ExeSeen && events[j]->ExeSeen_path
                == events[i]->MapSeen_exe_path
}

/// The stream is in the order that the updater relies on: it opens with
/// `ObsBegin`, the memory figures follow before any executable, it closes
/// with `ObsEnd`, and what lies between is in order.
pub open spec fn in_order(events: Seq<EventView>) -> bool {
    &&& events.len() >= 3
    &&& events[0] is ObsBegin
    &&& events[1] is MemStat
    &&& events.last() is ObsEnd
    &&& body_in_order(events.subrange(2, events.len() - 1))
}

/// Whether `path` is among `seen`.
fn was_seen(seen: &Vec<String>, path: &String) -> (r: bool)
    ensures
        r == seen@.map_values(|p: String| p@).contains(path@),
{
    let ghost views = seen@.map_values(|p: String| p@);
    let mut i: usize = 0;
    while i < seen.len()
        invariant
            i <= seen@.len(),
            views == seen@.map_values(|p: String| p@),
            forall|j: int| 0 <= j < i ==> views[j] != path@,
        decreases seen@.len() - i,
    {
        if seen[i] == *path {
            assert(views[i as int] == path@);
            return true;
        }
        i += 1;
    }
    false
}

/// The body of the stream together with the paths it has shown.
spec fn body_wf(events: Seq<EventView>, seen: Seq<Seq<char>>) -> bool {
    &&& body_in_order(events)
    &&& forall|i: int|
        0 <= i < events.len() && (#[trigger] events[i]) is ExeSeen ==> seen.contains(
            events[i]->ExeSeen_path,
        )
}

proof fn lemma_map_events_kind(
    exe_path: Seq<char>,
    maps: Seq<RawMapView>,
    n: nat,
    prefixes: Seq<&str>,
    now: u64,
)
    ensures
        forall|i: int|
            0 <= i < map_events(exe_path, maps, n, prefixes, now).len() ==> (#[trigger] map_events(
                exe_path,
                maps,
                n,
                prefixes,
                now,
            )[i]) is MapSeen && map_events(exe_path, maps, n, prefixes, now)[i]->MapSeen_exe_path
                == exe_path,
    decreases n,
{
    if n > 0 {
        lemma_map_events_kind(exe_path, maps, (n - 1) as nat, prefixes, now);
    }
}

proof fn lemma_after_process_in_order(
    st: ScanState,
    p: RawProcessView,
    prefixes: Seq<&str>,
    now: u64,
)
    requires
        body_wf(st.events, st.seen),
    ensures
        body_wf(after_process(st, p, prefixes, now).events, after_process(st, p, prefixes, now).seen),
{
    let next = after_process(st, p, prefixes, now);
    if next != st {
        let exe_path = followed(p.exe, prefixes)->0;
        let at = st.events.len() as int;
        let tail = match p.maps {
            Ok(maps) => map_events(exe_path, maps, maps.len(), prefixes, now),
            Err(_) => Seq::<EventView>::empty(),
        };
        if p.maps is Ok {
            lemma_map_events_kind(exe_path, p.maps->Ok_0, p.maps->Ok_0.len(), prefixes, now);
        }
        let exe_seen = EventView::ExeSeen { path: exe_path, pid: p.pid };
        assert(next.events =~= st.events.push(exe_seen) + tail);
        assert(next.seen == st.seen.push(exe_path));
        assert(forall|i: int| 0 <= i < at ==> next.events[i] == st.events[i]);
        assert(next.events[at] == exe_seen);
        assert(forall|i: int| at < i < next.events.len() ==> next.events[i] == tail[i - at - 1]);
        assert forall|i: int, j: int|
            0 <= i < j < next.events.len() && (#[trigger] next.events[i]) is ExeSeen && (
            #[trigger] next.events[j]) is ExeSeen implies next.events[i]->ExeSeen_path
            != next.events[j]->ExeSeen_path by {
            if j < at {
                assert(st.events[i] is ExeSeen && st.events[j] is ExeSeen);
            } else if j == at {
                assert(st.events[i] is ExeSeen);
                assert(st.seen.contains(st.events[i]->ExeSeen_path));
            } else {
                assert(tail[j - at - 1] is MapSeen);
            }
        }
        assert forall|i: int|
            0 <= i < next.events.len() && (#[trigger] next.events[i]) is MapSeen implies exists|
            j: int,
        |
            0 <= j < i && next.events[j] is ExeSeen && next.events[j]->ExeSeen_path
                == next.events[i]->MapSeen_exe_path by {
            if i < at {
                assert(st.events[i] is MapSeen);
                let j = choose|j: int|
                    0 <= j < i && st.events[j] is ExeSeen && st.events[j]->ExeSeen_path
                        == st.events[i]->MapSeen_exe_path;
                assert(next.events[j] == st.events[j]);
            } else {
                assert(tail[i - at - 1] is MapSeen);
                assert(next.events[at] is ExeSeen);
            }
        }
        assert forall|i: int|
            0 <= i < next.events.len() && (#[trigger] next.events[i]) is ExeSeen implies next.seen.contains(
            next.events[i]->ExeSeen_path,
        ) by {
            if i < at {
                assert(st.events[i] is ExeSeen);
                let k = choose|k: int|
                    0 <= k < st.seen.len() && st.seen[k] == st.events[i]->ExeSeen_path;
                assert(next.seen[k] == st.seen[k]);
            } else if i == at {
                assert(next.seen[st.seen.len() as int] == exe_path);
            } else {
                assert(tail[i - at - 1] is MapSeen);
            }
        }
        assert forall|i: int| 0 <= i < next.events.len() implies (#[trigger] next.events[i])
            is ExeSeen || next.events[i] is MapSeen by {
            if i < at {
                assert(st.events[i] is ExeSeen || st.events[i] is MapSeen);
            } else if i > at {
                assert(tail[i - at - 1] is MapSeen);
            }
        }
    }
}

proof fn lemma_scanned_in_order(
    processes: Seq<RawProcessView>,
    n: nat,
    prefixes: Seq<&str>,
    now: u64,
)
    ensures
        body_wf(scanned(processes, n, prefixes, now).events, scanned(processes, n, prefixes, now).seen),
    decreases n,
{
    if n > 0 {
        lemma_scanned_in_order(processes, (n - 1) as nat, prefixes, now);
        lemma_after_process_in_order(
            scanned(processes, (n - 1) as nat, prefixes, now),
            processes[n - 1],
            prefixes,
            now,
        );
    }
}

/// Whatever the processes, the stream of a scan is in order.
pub proof fn lemma_stream_in_order(
    now: u64,
    scan_id: u64,
    mem: MemStat,
    processes: Seq<RawProcessView>,
    prefixes: Seq<&str>,
)
    ensures
        in_order(stream_of(now, scan_id, mem, processes, prefixes)),
{
    let st = scanned(processes, processes.len(), prefixes, now);
    let stream = stream_of(now, scan_id, mem, processes, prefixes);
    lemma_scanned_in_order(processes, processes.len(), prefixes, now);
    assert(stream.subrange(2, stream.len() - 1) =~= st.events);
    assert(stream[0] is ObsBegin);
    assert(stream[1] is MemStat);
}

/// The stream of events of the scan number `scan_id` at `now`, from the
/// memory figures `mem` and the processes as they were read.
///
/// The stream opens with `ObsBegin` and the memory figures. Then, for each
/// process whose executable is followed and was not seen in this scan
/// yet, comes the event of the executable and the events of its maps
/// whose files are followed; a process whose maps could not be read gives
/// a warning in place of its maps. A path is followed under its clean
/// form, if it has one that the prefixes accept. The stream closes with
/// `ObsEnd`, which carries the warnings.
pub fn observe_processes(
    now: u64,
    scan_id: u64,
    mem: MemStat,
    processes: &Vec<RawProcess>,
    prefixes: &[&str],
) -> (r: Vec<ObservationEvent>)
    ensures
        events_view(r@) == stream_of(
            now,
            scan_id,
            mem,
            processes@.map_values(|p: RawProcess| p@),
            prefixes@,
        ),
        in_order(events_view(r@)),
{
    let ghost raw = processes@.map_values(|p: RawProcess| p@);
    let mut events: Vec<ObservationEvent> = Vec::new();
    let mut warnings: Vec<ScanWarning> = Vec::new();
    let mut seen: Vec<String> = Vec::new();
    events.push(ObservationEvent::ObsBegin { time: now, scan_id });
    events.push(ObservationEvent::MemStat { mem });
    let ghost head = seq![EventView::ObsBegin { time: now, scan_id }, EventView::MemStat { mem }];
    assert(events_view(events@) =~= head + scanned(raw, 0, prefixes@, now).events);
    assert(warnings@.map_values(|w: ScanWarning| w@) =~= scanned(raw, 0, prefixes@, now).warnings);
    assert(seen@.map_values(|p: String| p@) =~= scanned(raw, 0, prefixes@, now).seen);
    let mut i: usize = 0;
    while i < processes.len()
        invariant
            i <= processes@.len(),
            raw == processes@.map_values(|p: RawProcess| p@),
            head == seq![EventView::ObsBegin { time: now, scan_id }, EventView::MemStat { mem }],
            events_view(events@) == head + scanned(raw, i as nat, prefixes@, now).events,
            warnings@.map_values(|w: ScanWarning| w@) == scanned(
                raw,
                i as nat,
                prefixes@,
                now,
            ).warnings,
            seen@.map_values(|p: String| p@) == scanned(raw, i as nat, prefixes@, now).seen,
        decreases processes@.len() - i,
    {
        let process = &processes[i];
        let ghost st = scanned(raw, i as nat, prefixes@, now);
        assert(raw[i as int] == process@);
        match follow(process.exe.as_str(), prefixes) {
            Some(exe_path) => {
                if !was_seen(&seen, &exe_path) {
                    let ghost before = events_view(events@);
                    events.push(
                        ObservationEvent::ExeSeen { path: exe_path.clone(), pid: process.pid },
                    );
                    let ghost exe_seen = EventView::ExeSeen { path: exe_path@, pid: process.pid };
                    assert(events_view(events@) =~= before.push(exe_seen));
                    match &process.maps {
                        Ok(maps) => {
                            let ghost raw_maps = maps@.map_values(|m: RawMap| m@);
                            let ghost base = events_view(events@);
                            let mut k: usize = 0;
                            assert(base + map_events(exe_path@, raw_maps, 0, prefixes@, now)
                                =~= base);
                            while k < maps.len()
                                invariant
                                    k <= maps@.len(),
                                    raw_maps == maps@.map_values(|m: RawMap| m@),
                                    events_view(events@) == base + map_events(
                                        exe_path@,
                                        raw_maps,
                                        k as nat,
                                        prefixes@,
                                        now,
                                    ),
                                decreases maps@.len() - k,
                            {
                                let map = &maps[k];
                                assert(raw_maps[k as int] == map@);
                                let ghost so_far = events_view(events@);
                                match follow(map.path.as_str(), prefixes) {
                                    Some(path) => {
                                        let length = if map.end >= map.start {
                                            map.end - map.start
                                        } else {
                                            0
                                        };
                                        events.push(
                                            ObservationEvent::MapSeen {
                                                exe_path: exe_path.clone(),
                                                map: MapSegment {
                                                    path,
                                                    offset: map.offset,
                                                    length,
                                                    update_time: now,
                                                },
                                            },
                                        );
                                        assert(events_view(events@) =~= so_far.push(
                                            events@[events@.len() - 1]@,
                                        ));
                                    },
                                    None => {},
                                }
                                k += 1;
                            }
                            proof {
                                assert(events_view(events@) =~= head + (st.events.push(exe_seen)
                                    + map_events(
                                    exe_path@,
                                    raw_maps,
                                    raw_maps.len(),
                                    prefixes@,
                                    now,
                                )));
                            }
                        },
                        Err(reason) => {
                            let ghost before_w = warnings@.map_values(|w: ScanWarning| w@);
                            warnings.push(
                                ScanWarning::MapScanFailed {
                                    pid: process.pid,
                                    reason: reason.clone(),
                                },
                            );
                            proof {
                                assert(warnings@.map_values(|w: ScanWarning| w@) =~= before_w.push(
                                    ScanWarningView { pid: process.pid, reason: reason@ },
                                ));
                                assert(events_view(events@) =~= head + st.events.push(exe_seen));
                            }
                        },
                    }
                    let ghost before_s = seen@.map_values(|p: String| p@);
                    seen.push(exe_path);
                    assert(seen@.map_values(|p: String| p@) =~= before_s.push(exe_path@));
                }
            },
            None => {},
        }
        i += 1;
    }
    let ghost st = scanned(raw, raw.len(), prefixes@, now);
    let ghost body = events_view(events@);
    events.push(ObservationEvent::ObsEnd { time: now, scan_id, warnings });
    proof {
        assert(events_view(events@) =~= body.push(
            EventView::ObsEnd { time: now, scan_id, warnings: st.warnings },
        ));
        assert(events_view(events@) =~= stream_of(now, scan_id, mem, raw, prefixes@));
        lemma_stream_in_order(now, scan_id, mem, raw, prefixes@);
    }
    events
}

} // verus!
