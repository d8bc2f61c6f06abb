//! Constraints emitted by the detectors and consumed by the solver.
//!
//! A constraint lives for one step only: the detector emits it, the solver
//! reads it, and it is discarded.  The contact payload `C` carries the
//! geometric data (witness points, normal, depth, accumulated impulses); the
//! detector never inspects it, it only moves it from the pair cache into the
//! constraint list.

use vstd::prelude::*;
use crate::body::Body;

verus! {

/// A constraint between two bodies.
#[derive(Clone, Copy)]
pub enum Constraint<C> {
    /// A contact constraint between two rigid bodies.
    RBRB(Body, Body, C),
}

impl<C> Constraint<C> {
    /// The first body of the constraint.
    pub open spec fn body_a(self) -> Body {
        match self {
            Constraint::RBRB(a, _, _) => a,
        }
    }

    /// The second body of the constraint.
    pub open spec fn body_b(self) -> Body {
        match self {
            Constraint::RBRB(_, b, _) => b,
        }
    }

    /// Whether at least one of the constrained bodies can move.
    pub open spec fn has_movable_body(self) -> bool {
        self.body_a().movable() || self.body_b().movable()
    }
}

} // verus!
