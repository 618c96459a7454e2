//! Canonical key of an unordered pair of executables.

use vstd::prelude::*;
use crate::domain::ExeId;

verus! {

/// An unordered pair of executables, held with the smaller identifier first.
#[derive(Clone, Copy, Debug, PartialEq, Eq, Structural, Hash)]
pub struct EdgeKey(pub ExeId, pub ExeId);

impl EdgeKey {
    /// The key of the pair `{a, b}`.
    pub open spec fn of(a: ExeId, b: ExeId) -> EdgeKey {
        if a.0 < b.0 {
            EdgeKey(a, b)
        } else {
            EdgeKey(b, a)
        }
    }

    /// The smaller identifier comes first.
    pub open spec fn canonical(self) -> bool {
        self.0.0 <= self.1.0
    }

    /// The key joins two distinct executables, the smaller identifier first.
    pub open spec fn proper(self) -> bool {
        self.0.0 < self.1.0
    }

    /// Whether `id` is one of the two executables.
    pub open spec fn touches(self, id: ExeId) -> bool {
        self.0 == id || self.1 == id
    }

    pub fn new(a: ExeId, b: ExeId) -> (r: Self)
        ensures
            r == Self::of(a, b),
            r.canonical(),
    {
        if a.0 < b.0 {
            EdgeKey(a, b)
        } else {
            EdgeKey(b, a)
        }
    }

    pub fn a(self) -> (r: ExeId)
        ensures
            r == self.0,
    {
        self.0
    }

    pub fn b(self) -> (r: ExeId)
        ensures
            r == self.1,
    {
        self.1
    }
}

/// The key of a pair does not depend on the order in which the two
/// executables are given, and it is canonical.
pub proof fn lemma_edge_key_unordered(a: ExeId, b: ExeId)
    ensures
        EdgeKey::of(a, b) == EdgeKey::of(b, a),
        EdgeKey::of(a, b).canonical(),
        EdgeKey::of(a, b).touches(a),
        EdgeKey::of(a, b).touches(b),
{
}

/// Of the two orderings of a pair of distinct executables only one is
/// canonical.
pub proof fn lemma_one_canonical_ordering(a: ExeId, b: ExeId)
    requires
        a != b,
    ensures
        !(EdgeKey(a, b).canonical() && EdgeKey(b, a).canonical()),
{
}

} // verus!
