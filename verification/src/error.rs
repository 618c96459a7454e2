//! Errors of the core.

use vstd::prelude::*;

verus! {

/// What an error stands for.
pub ghost enum ErrorView {
    ExeMissing(Seq<char>),
    MapMissing(Seq<char>),
}

/// Why a snapshot was rejected.
#[derive(Clone, Debug, PartialEq, Eq)]
pub enum Error {
    /// A record names an executable that the snapshot does not hold; the
    /// path is that of the executable.
    ExeMissing(String),
    /// A record names a map that the snapshot does not hold; the path is
    /// that of the mapped file.
    MapMissing(String),
}

impl View for Error {
    type V = ErrorView;

    open spec fn view(&self) -> ErrorView {
        match self {
            Error::ExeMissing(p) => ErrorView::ExeMissing(p@),
            Error::MapMissing(p) => ErrorView::MapMissing(p@),
        }
    }
}

} // verus!
