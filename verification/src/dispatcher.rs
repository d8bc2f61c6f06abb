//! Pair dispatch: which pairs get a narrow-phase detector, and which pairs
//! are worth tracking at all.
//!
//! The dispatcher is a two-argument match on the body kinds.  A rigid-rigid
//! pair gets a geometry-geometry workspace; any pair containing a soft body
//! is marked unsupported so downstream passes skip it cheaply.  Its validity
//! predicate filters self pairs and pairs of two static bodies before any
//! narrow-phase work is spent on them.

use vstd::prelude::*;
use crate::body::Body;

verus! {

/// Narrow-phase workspace for a rigid-rigid pair.  The caller's geometric
/// kernel refreshes `contacts` each step from the bodies' transforms and
/// shapes; between refreshes it holds the persistent manifold whose identity
/// carries the accumulated impulses across frames (warm starting).
pub struct GeomGeom<C> {
    /// The pair's current contact manifold, in generation order.
    pub contacts: Vec<C>,
}

/// Per-pair narrow-phase state, chosen by the dispatcher.
pub enum PairwiseDetector<C> {
    /// A supported rigid-rigid pair with its workspace.
    GG(GeomGeom<C>),
    /// A pair containing a soft body: skipped by every pass.
    Unsupported,
}

impl<C> PairwiseDetector<C> {
    /// Whether the pair has a supported narrow-phase detector.
    pub open spec fn is_gg(self) -> bool {
        self is GG
    }

    /// The contacts the pair currently holds; empty for unsupported pairs.
    pub open spec fn contacts(self) -> Seq<C> {
        match self {
            PairwiseDetector::GG(g) => g.contacts@,
            PairwiseDetector::Unsupported => Seq::empty(),
        }
    }

    /// Whether the pair has a supported narrow-phase detector.
    pub fn supported(&self) -> (r: bool)
        ensures
            r == self.is_gg(),
    {
        match self {
            PairwiseDetector::GG(_) => true,
            PairwiseDetector::Unsupported => false,
        }
    }
}

/// The ambient dimension the simplex recursion template is built for.
pub const DIMENSION: usize = 3;

/// Chooses the narrow-phase detector for a pair of bodies and decides which
/// pairs the cache should track.
pub struct Dispatcher {
    /// Dimension of the precomputed sub-simplex recursion template shared by
    /// the workspaces it hands out.
    pub dimension: usize,
}

impl Dispatcher {
    /// A dispatcher whose simplex template covers the ambient dimension.
    pub fn new() -> (r: Dispatcher)
        ensures
            r.dimension == DIMENSION,
    {
        Dispatcher { dimension: DIMENSION }
    }

    /// What `dispatch` decides for a pair: a workspace exactly for
    /// rigid-rigid pairs.
    pub open spec fn spec_supported(a: Body, b: Body) -> bool {
        a.is_rigid() && b.is_rigid()
    }

    /// Picks the narrow-phase state for a pair: rigid-rigid pairs get a
    /// geometry-geometry workspace with an empty manifold, every other pair
    /// is unsupported.
    pub fn dispatch<C>(&self, a: &Body, b: &Body) -> (r: PairwiseDetector<C>)
        ensures
            r.is_gg() == Self::spec_supported(*a, *b),
            r.contacts() == Seq::<C>::empty(),
    {
        match (a, b) {
            (Body::RB(_), Body::RB(_)) => PairwiseDetector::GG(GeomGeom { contacts: Vec::new() }),
            _ => PairwiseDetector::Unsupported,
        }
    }

    /// What `is_valid` decides: a pair is tracked unless it pairs a body
    /// with itself, or pairs two rigid bodies neither of which can move.
    pub open spec fn spec_is_valid(a: Body, b: Body) -> bool {
        &&& a.id() != b.id()
        &&& (a.is_rigid() && b.is_rigid() ==> a.movable() || b.movable())
    }

    /// Whether the pair cache should track a pair at all.  Self pairs and
    /// static-static rigid pairs are filtered out before any narrow-phase
    /// work; pairs involving a soft body stay tracked (as unsupported) so a
    /// future detector can take them over.
    pub fn is_valid(&self, a: &Body, b: &Body) -> (r: bool)
        ensures
            r == Self::spec_is_valid(*a, *b),
    {
        if a.handle() == b.handle() {
            return false;
        }
        match (a, b) {
            (Body::RB(ra), Body::RB(rb)) => ra.movable || rb.movable,
            _ => true,
        }
    }
}

} // verus!
