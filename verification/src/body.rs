//! Bodies as the detection pipeline sees them.
//!
//! A body is identified by a stable handle.  The detector only ever reads a
//! body's variant (rigid or soft) and, for rigid bodies, whether it can move;
//! poses, velocities and shapes live with the caller, which performs all
//! floating-point geometry.

use vstd::prelude::*;

verus! {

/// A rigid body: the only variant the narrow phase supports.
#[derive(Clone, Copy)]
pub struct RigidBody {
    /// Stable handle identifying the body in every registry.
    pub id: usize,
    /// False for static bodies: infinite mass, never moves.
    pub movable: bool,
}

/// A deformable body; pairs containing one are dispatched as unsupported.
#[derive(Clone, Copy)]
pub struct SoftBody {
    /// Stable handle identifying the body in every registry.
    pub id: usize,
}

/// A body of either variant.
#[derive(Clone, Copy)]
pub enum Body {
    RB(RigidBody),
    SB(SoftBody),
}

impl Body {
    /// The body's stable handle.
    pub open spec fn id(self) -> usize {
        match self {
            Body::RB(rb) => rb.id,
            Body::SB(sb) => sb.id,
        }
    }

    /// Whether the body is rigid.
    pub open spec fn is_rigid(self) -> bool {
        self is RB
    }

    /// Whether the body can ever move.  Soft bodies are never simulated here.
    pub open spec fn movable(self) -> bool {
        match self {
            Body::RB(rb) => rb.movable,
            Body::SB(_) => false,
        }
    }

    /// The body's stable handle.
    pub fn handle(&self) -> (r: usize)
        ensures
            r == self.id(),
    {
        match self {
            Body::RB(rb) => rb.id,
            Body::SB(sb) => sb.id,
        }
    }

    /// Whether the body can ever move.
    pub fn can_move(&self) -> (r: bool)
        ensures
            r == self.movable(),
    {
        match self {
            Body::RB(rb) => rb.movable,
            Body::SB(_) => false,
        }
    }
}

} // verus!
