//! The decisions of the engine: the steps of a tick, reload, autosave, and
//! the way between the stores and a snapshot.

pub mod cycle;
pub mod reconstitute;

pub use cycle::{
    autosave_due, sleep_after_tick, Observed, PreloadEngine, ReloadBundle, ScanRequest,
    TickReport,
};
pub use reconstitute::{snapshot_from_stores, stores_from_snapshot};
