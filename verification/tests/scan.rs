use orchestrator::domain::{MapSegment, MemStat};
use orchestrator::observation::{ObservationEvent, ScanWarning};
use orchestrator::scan::{follow, observe_processes, RawMap, RawProcess};

fn map(path: &str, start: u64, end: u64, offset: u64) -> RawMap {
    RawMap { path: path.to_string(), start, end, offset }
}

fn mem() -> MemStat {
    MemStat { total: 8, free: 4, cached: 2, pagein: 1, pageout: 0 }
}

#[test]
fn a_path_is_followed_under_its_clean_form() {
    let prefixes = ["!/home", "/home/user/bin"];
    assert_eq!(follow("/usr/bin/vim", &prefixes), Some("/usr/bin/vim".to_string()));
    assert_eq!(
        follow("/usr/lib/libc.so.#prelink#.abc", &prefixes),
        Some("/usr/lib/libc.so".to_string())
    );
    assert_eq!(follow("/home/user/x", &prefixes), None);
    assert_eq!(follow("/home/user/bin/x", &prefixes), Some("/home/user/bin/x".to_string()));
    assert_eq!(follow("/usr/bin/vim (deleted)", &prefixes), None);
    assert_eq!(follow("usr/bin/vim", &prefixes), None);
    // the prefixes judge the clean form
    assert_eq!(
        follow("/home/user/bin.#prelink#./x", &prefixes),
        Some("/home/user/bin".to_string())
    );
}

#[test]
fn the_stream_of_a_scan_is_in_order() {
    let processes = vec![
        RawProcess {
            pid: 10,
            exe: "/usr/bin/vim".to_string(),
            maps: Ok(vec![
                map("/usr/bin/vim", 0x1000, 0x3000, 0),
                map("/usr/lib/libc.so.#prelink#.1", 0x8000, 0x9000, 4096),
                map("/usr/lib/gone.so (deleted)", 0, 1, 0),
                map("/tmp/secret", 0, 4096, 0),
                map("/usr/lib/odd.so", 0x9000, 0x8000, 0),
            ]),
        },
        RawProcess { pid: 11, exe: "/tmp/tool".to_string(), maps: Ok(vec![map("/usr/lib/a", 0, 1, 0)]) },
        RawProcess {
            pid: 12,
            exe: "/usr/bin/vim".to_string(),
            maps: Ok(vec![map("/usr/lib/second", 0, 1, 0)]),
        },
        RawProcess { pid: 13, exe: "/usr/bin/top".to_string(), maps: Err("denied".to_string()) },
        RawProcess { pid: 14, exe: "relative/exe".to_string(), maps: Ok(Vec::new()) },
        RawProcess { pid: 15, exe: "/usr/bin/sh".to_string(), maps: Ok(Vec::new()) },
    ];
    let prefixes = ["!/tmp"];
    let events = observe_processes(60, 4, mem(), &processes, &prefixes);
    assert_eq!(
        events,
        vec![
            ObservationEvent::ObsBegin { time: 60, scan_id: 4 },
            ObservationEvent::MemStat { mem: mem() },
            ObservationEvent::ExeSeen { path: "/usr/bin/vim".to_string(), pid: 10 },
            ObservationEvent::MapSeen {
                exe_path: "/usr/bin/vim".to_string(),
                map: MapSegment::new("/usr/bin/vim", 0, 0x2000, 60),
            },
            ObservationEvent::MapSeen {
                exe_path: "/usr/bin/vim".to_string(),
                map: MapSegment::new("/usr/lib/libc.so", 4096, 0x1000, 60),
            },
            ObservationEvent::MapSeen {
                exe_path: "/usr/bin/vim".to_string(),
                map: MapSegment::new("/usr/lib/odd.so", 0, 0, 60),
            },
            ObservationEvent::ExeSeen { path: "/usr/bin/top".to_string(), pid: 13 },
            ObservationEvent::ExeSeen { path: "/usr/bin/sh".to_string(), pid: 15 },
            ObservationEvent::ObsEnd {
                time: 60,
                scan_id: 4,
                warnings: vec![ScanWarning::MapScanFailed {
                    pid: 13,
                    reason: "denied".to_string(),
                }],
            },
        ]
    );
}

#[test]
fn a_scan_without_processes_opens_and_closes() {
    let events = observe_processes(0, 1, mem(), &Vec::new(), &[]);
    assert_eq!(
        events,
        vec![
            ObservationEvent::ObsBegin { time: 0, scan_id: 1 },
            ObservationEvent::MemStat { mem: mem() },
            ObservationEvent::ObsEnd { time: 0, scan_id: 1, warnings: Vec::new() },
        ]
    );
}
