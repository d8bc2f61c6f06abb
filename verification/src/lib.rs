//! Collision-detection core of a rigid-body physics pipeline.
//!
//! Bodies are registered with a broad phase whose pair cache tracks which
//! bodies are close enough to possibly touch.  A dispatcher decides, per pair,
//! whether a narrow-phase detector exists and whether the pair is worth
//! tracking at all.  The bodies-bodies detector drains the cache into contact
//! constraints each step and answers ray queries over the registered bodies.
//!
//! All geometric floating-point work (bounding-box overlap tests, ray-shape
//! casts, contact manifolds) is performed by the caller; this crate holds and
//! verifies everything discrete: pair lifetime, filtering, activation,
//! ordering, and constraint assembly.

pub mod body;
pub mod constraint;
pub mod signal;
pub mod dispatcher;
pub mod broad_phase;
pub mod bodies_bodies;
