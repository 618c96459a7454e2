//! Persistence of the model: the snapshot, its rows and the repositories.

pub mod repo;
pub mod rows;
pub mod snapshot;

pub use repo::{repository_for, ChosenRepository, NoopRepository, SqliteRepository};
pub use rows::{from_rows, to_rows, SnapshotRows};
pub use snapshot::{
    ExeMapRecord, ExeRecord, MapRecord, MarkovRecord, SnapshotMeta, StateSnapshot,
    StoresSnapshot, SNAPSHOT_SCHEMA_VERSION,
};
