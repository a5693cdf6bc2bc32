//! Dirty-region tracking for the partial-redraw system.

use vstd::prelude::*;

verus! {

/// Describes which part of the retained surface needs to be repainted.
///
/// Accumulated per event cycle via [`DirtyRegion::merge`].
#[derive(Clone, Copy, PartialEq, Eq, Debug, Structural)]
pub enum DirtyRegion {
    /// Nothing changed; skip the repaint entirely.
    NoChange,
    /// The entire frame must be redrawn.
    All,
    /// Only the back-button area changed (e.g. hover state toggled).
    BackButtonOnly,
    /// The main page content changed (e.g. divider dragged).
    PageOnly,
}

/// The least-specific region covering both `a` and `b`: `NoChange` is the
/// identity, `All` absorbs everything, equal regions stay as they are and two
/// different specific regions escalate to `All`.
pub open spec fn merged(a: DirtyRegion, b: DirtyRegion) -> DirtyRegion {
    if a == DirtyRegion::NoChange {
        b
    } else if b == DirtyRegion::NoChange {
        a
    } else if a == b {
        a
    } else {
        DirtyRegion::All
    }
}

impl DirtyRegion {
    /// Combines two dirty regions into the least-specific region that covers both.
    ///
    /// `NoChange` is the identity element; two different non-`NoChange` regions escalate to `All`.
    pub fn merge(self, other: DirtyRegion) -> (r: DirtyRegion)
        ensures
            r == merged(self, other),
    {
        match (self, other) {
            (DirtyRegion::NoChange, x) => x,
            (x, DirtyRegion::NoChange) => x,
            (DirtyRegion::All, _) => DirtyRegion::All,
            (_, DirtyRegion::All) => DirtyRegion::All,
            (a, b) => {
                if a == b {
                    a
                } else {
                    DirtyRegion::All
                }
            },
        }
    }
}

/// `NoChange` is the identity of `merge`, on either side.
pub proof fn lemma_merge_none_identity(r: DirtyRegion)
    ensures
        merged(DirtyRegion::NoChange, r) == r,
        merged(r, DirtyRegion::NoChange) == r,
{
}

/// `All` absorbs every region, on either side.
pub proof fn lemma_merge_all_absorbs(r: DirtyRegion)
    ensures
        merged(DirtyRegion::All, r) == DirtyRegion::All,
        merged(r, DirtyRegion::All) == DirtyRegion::All,
{
}

/// Merging a region with itself leaves it unchanged.
pub proof fn lemma_merge_idempotent(r: DirtyRegion)
    ensures
        merged(r, r) == r,
{
}

/// Two different regions, neither of them `NoChange`, escalate to `All`.
pub proof fn lemma_merge_distinct_escalates(a: DirtyRegion, b: DirtyRegion)
    requires
        a != DirtyRegion::NoChange,
        b != DirtyRegion::NoChange,
        a != b,
    ensures
        merged(a, b) == DirtyRegion::All,
{
}

/// The order in which two regions are merged does not matter.
pub proof fn lemma_merge_commutative(a: DirtyRegion, b: DirtyRegion)
    ensures
        merged(a, b) == merged(b, a),
{
}

/// Regions accumulated over an event cycle give the same result however the
/// merges are grouped.
pub proof fn lemma_merge_associative(a: DirtyRegion, b: DirtyRegion, c: DirtyRegion)
    ensures
        merged(merged(a, b), c) == merged(a, merged(b, c)),
{
}

/// The merged region covers both inputs: merging either input into the result
/// changes nothing.
pub proof fn lemma_merge_covers(a: DirtyRegion, b: DirtyRegion)
    ensures
        merged(merged(a, b), a) == merged(a, b),
        merged(merged(a, b), b) == merged(a, b),
{
}

} // verus!
