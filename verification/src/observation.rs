//! What a scan observed, and which executables the model admits.

use vstd::prelude::*;
use crate::domain::{MapSegment, MapSegmentView, MemStat};

verus! {

/// What a warning stands for.
pub ghost struct ScanWarningView {
    pub pid: u32,
    pub reason: Seq<char>,
}

/// What went wrong with one process during a scan. The scan went on.
#[derive(Clone, Debug, PartialEq, Eq)]
pub enum ScanWarning {
    /// The memory maps of the process could not be read.
    MapScanFailed { pid: u32, reason: String },
}

impl View for ScanWarning {
    type V = ScanWarningView;

    open spec fn view(&self) -> ScanWarningView {
        match self {
            ScanWarning::MapScanFailed { pid, reason } => ScanWarningView {
                pid: *pid,
                reason: reason@,
            },
        }
    }
}

/// What an event stands for.
pub ghost enum EventView {
    ObsBegin { time: u64, scan_id: u64 },
    ExeSeen { path: Seq<char>, pid: u32 },
    MapSeen { exe_path: Seq<char>, map: MapSegmentView },
    MemStat { mem: MemStat },
    ObsEnd { time: u64, scan_id: u64, warnings: Seq<ScanWarningView> },
}

/// One event of the stream that a scan produces.
#[derive(Clone, Debug, PartialEq, Eq)]
pub enum ObservationEvent {
    /// Opens the stream.
    ObsBegin { time: u64, scan_id: u64 },
    /// The executable at `path` runs, as process `pid`.
    ExeSeen { path: String, pid: u32 },
    /// The executable at `exe_path` has `map` in its address space.
    MapSeen { exe_path: String, map: MapSegment },
    /// The memory figures of the host.
    MemStat { mem: MemStat },
    /// Closes the stream.
    ObsEnd { time: u64, scan_id: u64, warnings: Vec<ScanWarning> },
}

impl View for ObservationEvent {
    type V = EventView;

    open spec fn view(&self) -> EventView {
        match self {
            ObservationEvent::ObsBegin { time, scan_id } => EventView::ObsBegin {
                time: *time,
                scan_id: *scan_id,
            },
            ObservationEvent::ExeSeen { path, pid } => EventView::ExeSeen {
                path: path@,
                pid: *pid,
            },
            ObservationEvent::MapSeen { exe_path, map } => EventView::MapSeen {
                exe_path: exe_path@,
                map: map@,
            },
            ObservationEvent::MemStat { mem } => EventView::MemStat { mem: *mem },
            ObservationEvent::ObsEnd { time, scan_id, warnings } => EventView::ObsEnd {
                time: *time,
                scan_id: *scan_id,
                warnings: warnings@.map_values(|w: ScanWarning| w@),
            },
        }
    }
}

/// What a stream of events stands for.
pub open spec fn events_view(events: Seq<ObservationEvent>) -> Seq<EventView> {
    events.map_values(|e: ObservationEvent| e@)
}

/// The memory figures of the first `MemStat` event of `events`, if there
/// is one.
pub open spec fn first_memstat(events: Seq<EventView>) -> Option<MemStat>
    decreases events.len(),
{
    if events.len() == 0 {
        None
    } else {
        match events[0] {
            EventView::MemStat { mem } => Some(mem),
            _ => first_memstat(events.drop_first()),
        }
    }
}

/// The memory figures that the scan reported, if it reported any.
pub fn extract_memstat(observation: &Vec<ObservationEvent>) -> (r: Option<MemStat>)
    ensures
        r == first_memstat(events_view(observation@)),
{
    let ghost events = events_view(observation@);
    let mut i: usize = 0;
    assert(events.skip(0) =~= events);
    while i < observation.len()
        invariant
            i <= observation@.len(),
            events == events_view(observation@),
            first_memstat(events) == first_memstat(events.skip(i as int)),
        decreases observation@.len() - i,
    {
        proof {
            assert(events.skip(i as int)[0] == observation@[i as int]@);
            assert(events.skip(i as int).drop_first() =~= events.skip(i + 1));
        }
        match &observation[i] {
            ObservationEvent::MemStat { mem } => {
                return Some(*mem);
            },
            _ => {},
        }
        i += 1;
    }
    None
}

/// The two events of a cycle that does not scan: the stream is opened and
/// closed at `now` without a warning.
pub fn synthetic_observation(now: u64, scan_id: u64) -> (r: Vec<ObservationEvent>)
    ensures
        events_view(r@) == seq![
            EventView::ObsBegin { time: now, scan_id },
            EventView::ObsEnd { time: now, scan_id, warnings: Seq::empty() },
        ],
{
    let mut r: Vec<ObservationEvent> = Vec::new();
    r.push(ObservationEvent::ObsBegin { time: now, scan_id });
    let warnings: Vec<ScanWarning> = Vec::new();
    assert(warnings@.map_values(|w: ScanWarning| w@) =~= Seq::<ScanWarningView>::empty());
    r.push(ObservationEvent::ObsEnd { time: now, scan_id, warnings });
    assert(events_view(r@) =~= seq![
        EventView::ObsBegin { time: now, scan_id },
        EventView::ObsEnd { time: now, scan_id, warnings: Seq::empty() },
    ]);
    r
}

/// Decides which executables the model follows.
pub trait AdmissionPolicy {
    /// Whether the policy admits the executable at `path` with
    /// `total_mapped_bytes` bytes mapped.
    spec fn admits(&self, path: Seq<char>, total_mapped_bytes: u64) -> bool;

    fn accept(&self, path: &str, total_mapped_bytes: u64) -> (r: bool)
        ensures
            r == self.admits(path@, total_mapped_bytes),
    ;
}

/// The default policy: an executable is admitted if it has at least
/// `minsize` bytes mapped.
#[derive(Clone, Copy, Debug, PartialEq, Eq, Structural)]
pub struct MinSizeAdmission {
    pub minsize: u64,
}

impl AdmissionPolicy for MinSizeAdmission {
    open spec fn admits(&self, path: Seq<char>, total_mapped_bytes: u64) -> bool {
        total_mapped_bytes >= self.minsize
    }

    fn accept(&self, path: &str, total_mapped_bytes: u64) -> (r: bool) {
        total_mapped_bytes >= self.minsize
    }
}

/// What one pass of the updater added to the stores and dropped from them.
#[derive(Clone, Copy, Debug, PartialEq, Eq, Structural)]
pub struct ModelDelta {
    pub new_exes: usize,
    pub new_maps: usize,
    pub new_edges: usize,
    pub pruned_edges: usize,
}

impl Default for ModelDelta {
    fn default() -> (r: Self)
        ensures
            r == (ModelDelta { new_exes: 0, new_maps: 0, new_edges: 0, pruned_edges: 0 }),
    {
        ModelDelta { new_exes: 0, new_maps: 0, new_edges: 0, pruned_edges: 0 }
    }
}

} // verus!
