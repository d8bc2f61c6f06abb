use nphysics::body::{Body, RigidBody};
use nphysics::bodies_bodies::BodiesBodies;
use nphysics::broad_phase::BroadPhase;
use nphysics::dispatcher::Dispatcher;
use nphysics::signal::SignalBus;

/// Parametric distance at which a ray hits a ball, if it does: the smallest
/// non-negative root of |origin + t * dir - center|^2 = r^2.
fn ball_ray_cast(center: [f64; 3], radius: f64, origin: [f64; 3], dir: [f64; 3]) -> Option<f64> {
    let oc = [origin[0] - center[0], origin[1] - center[1], origin[2] - center[2]];
    let a = dir[0] * dir[0] + dir[1] * dir[1] + dir[2] * dir[2];
    let b = 2.0 * (oc[0] * dir[0] + oc[1] * dir[1] + oc[2] * dir[2]);
    let c = oc[0] * oc[0] + oc[1] * oc[1] + oc[2] * oc[2] - radius * radius;
    let disc = b * b - 4.0 * a * c;
    if disc < 0.0 {
        return None;
    }
    let t = (-b - disc.sqrt()) / (2.0 * a);
    if t >= 0.0 {
        Some(t)
    } else {
        None
    }
}

fn empty_detector() -> BodiesBodies<f64> {
    let mut bus = SignalBus::new();
    let bp: BroadPhase<f64> = BroadPhase::new(Dispatcher::new());
    BodiesBodies::new(&mut bus, 1, bp, true)
}

#[test]
fn ray_query_hits_unit_ball_at_distance_four() {
    // Ray from (0, 5, 0) straight down onto a unit ball at the origin.
    let ball = Body::RB(RigidBody { id: 0, movable: true });
    let origin = [0.0, 5.0, 0.0];
    let dir = [0.0, -1.0, 0.0];
    let cast = ball_ray_cast([0.0, 0.0, 0.0], 1.0, origin, dir);
    let det = empty_detector();
    let mut out: Vec<(Body, f64)> = Vec::new();
    det.interferences_with_ray(&vec![ball], &vec![cast], &mut out);
    assert_eq!(out.len(), 1);
    assert_eq!(out[0].0.handle(), 0);
    assert!((out[0].1 - 4.0).abs() < 1e-9);
}

#[test]
fn ray_query_skips_candidates_the_ray_misses() {
    // Two balls whose fat AABBs the ray crossed; the exact cast only hits one.
    let near_miss = Body::RB(RigidBody { id: 0, movable: true });
    let hit = Body::RB(RigidBody { id: 1, movable: true });
    let origin = [0.0, 5.0, 0.0];
    let dir = [0.0, -1.0, 0.0];
    let casts = vec![
        ball_ray_cast([1.5, 0.0, 0.0], 1.0, origin, dir),
        ball_ray_cast([0.0, 2.0, 0.0], 0.5, origin, dir),
    ];
    assert!(casts[0].is_none());
    let det = empty_detector();
    let mut out: Vec<(Body, f64)> = Vec::new();
    det.interferences_with_ray(&vec![near_miss, hit], &casts, &mut out);
    assert_eq!(out.len(), 1);
    assert_eq!(out[0].0.handle(), 1);
    assert!((out[0].1 - 2.5).abs() < 1e-9);
}

#[test]
fn broad_phase_ray_answer_matches_direct_shape_cast() {
    // Consistency: the t the query reports for a body equals the direct cast
    // against that body's shape.
    let ball = Body::RB(RigidBody { id: 3, movable: true });
    let origin = [0.3, 7.0, -0.1];
    let dir = [0.0, -1.0, 0.0];
    let direct = ball_ray_cast([0.0, 0.0, 0.0], 1.0, origin, dir);
    let det = empty_detector();
    let mut out: Vec<(Body, f64)> = Vec::new();
    det.interferences_with_ray(&vec![ball], &vec![direct], &mut out);
    assert_eq!(out.len(), 1);
    assert_eq!(Some(out[0].1), direct);
}
