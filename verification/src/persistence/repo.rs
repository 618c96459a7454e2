//! The repositories that the core knows: one that keeps nothing, and one
//! that names the file of a relational store.

use vstd::prelude::*;
use crate::persistence::snapshot::{
    SnapshotMetaView, StateSnapshotView, StoresSnapshot, SNAPSHOT_SCHEMA_VERSION,
};

verus! {

/// The repository that keeps nothing: it loads an empty snapshot and
/// discards what it is given to save.
#[derive(Clone, Copy, Debug, PartialEq, Eq, Structural)]
pub struct NoopRepository;

impl NoopRepository {
    /// The empty snapshot.
    pub fn load(&self) -> (r: StoresSnapshot)
        ensures
            r@.state == StateSnapshotView::empty(),
            r@.meta == (SnapshotMetaView {
                schema_version: SNAPSHOT_SCHEMA_VERSION,
                app_version: None,
                created_at: None,
            }),
    {
        StoresSnapshot::empty()
    }

    /// Discards `snapshot`.
    pub fn save(&self, snapshot: &StoresSnapshot) {
    }
}

impl Default for NoopRepository {
    fn default() -> (r: Self) {
        NoopRepository
    }
}

/// The repository that keeps the state in the relational store at `path`.
/// This library only names the file; the program around it does the I/O.
#[derive(Clone, Debug, PartialEq, Eq)]
pub struct SqliteRepository {
    path: String,
}

impl SqliteRepository {
    pub fn new(path: String) -> (r: Self)
        ensures
            r.spec_path() == path@,
    {
        SqliteRepository { path }
    }

    /// The file of the store.
    pub closed spec fn spec_path(&self) -> Seq<char> {
        self.path@
    }

    /// The file of the store.
    pub fn path(&self) -> (r: &String)
        ensures
            r@ == self.spec_path(),
    {
        &self.path
    }
}

/// The repository that the options ask for.
#[derive(Clone, Debug, PartialEq, Eq)]
pub enum ChosenRepository {
    Noop(NoopRepository),
    Sqlite(SqliteRepository),
}

/// The repository for the path `state_path` of the state: without a path
/// nothing is persisted, and with one the state is kept in the relational
/// store at the path.
pub fn repository_for(state_path: &Option<String>) -> (r: ChosenRepository)
    ensures
        match r {
            ChosenRepository::Noop(_) => state_path is None,
            ChosenRepository::Sqlite(repo) => state_path matches Some(path) && repo.spec_path()
                == path@,
        },
{
    match state_path {
        Some(path) => ChosenRepository::Sqlite(SqliteRepository::new(path.clone())),
        None => ChosenRepository::Noop(NoopRepository),
    }
}

} // verus!
