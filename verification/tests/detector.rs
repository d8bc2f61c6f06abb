use nphysics::body::{Body, RigidBody, SoftBody};
use nphysics::bodies_bodies::BodiesBodies;
use nphysics::broad_phase::BroadPhase;
use nphysics::constraint::Constraint;
use nphysics::dispatcher::{Dispatcher, PairwiseDetector};
use nphysics::signal::{Channel, SignalBus};

fn rigid(id: usize, movable: bool) -> Body {
    Body::RB(RigidBody { id, movable })
}

fn soft(id: usize) -> Body {
    Body::SB(SoftBody { id })
}

fn detector_with(bodies: &[Body], overlaps: &[(usize, usize)]) -> BodiesBodies<f64> {
    let mut bus = SignalBus::new();
    let mut bp: BroadPhase<f64> = BroadPhase::new(Dispatcher::new());
    for b in bodies {
        bp.add(*b);
    }
    for (i, j) in overlaps {
        assert!(bp.report_overlap(&bodies[*i], &bodies[*j]));
    }
    BodiesBodies::new(&mut bus, 1, bp, true)
}

#[test]
fn dispatch_rigid_rigid_gets_workspace() {
    let d = Dispatcher::new();
    assert_eq!(d.dimension, 3);
    let det: PairwiseDetector<f64> = d.dispatch(&rigid(0, true), &rigid(1, false));
    match det {
        PairwiseDetector::GG(g) => assert!(g.contacts.is_empty()),
        PairwiseDetector::Unsupported => panic!("rigid-rigid pair must be supported"),
    }
}

#[test]
fn dispatch_soft_pairs_are_unsupported() {
    let d = Dispatcher::new();
    let a: PairwiseDetector<f64> = d.dispatch(&rigid(0, true), &soft(1));
    assert!(matches!(a, PairwiseDetector::Unsupported));
    let b: PairwiseDetector<f64> = d.dispatch(&soft(0), &soft(1));
    assert!(matches!(b, PairwiseDetector::Unsupported));
}

#[test]
fn is_valid_filters_self_and_static_static() {
    let d = Dispatcher::new();
    let plane = rigid(0, false);
    let ball = rigid(1, true);
    let wall = rigid(2, false);
    assert!(!d.is_valid(&plane, &plane));
    assert!(!d.is_valid(&plane, &wall));
    assert!(d.is_valid(&plane, &ball));
    assert!(d.is_valid(&ball, &rigid(3, true)));
    assert!(d.is_valid(&plane, &soft(4)));
}

#[test]
fn report_overlap_creates_each_pair_once() {
    let plane = rigid(0, false);
    let ball = rigid(1, true);
    let mut bp: BroadPhase<f64> = BroadPhase::new(Dispatcher::new());
    bp.add(plane);
    bp.add(ball);
    assert!(bp.report_overlap(&plane, &ball));
    assert!(!bp.report_overlap(&plane, &ball));
    assert!(!bp.report_overlap(&ball, &plane));
    assert_eq!(bp.pairs.len(), 1);
}

#[test]
fn report_overlap_rejects_invalid_pairs() {
    let plane = rigid(0, false);
    let wall = rigid(1, false);
    let mut bp: BroadPhase<f64> = BroadPhase::new(Dispatcher::new());
    bp.add(plane);
    bp.add(wall);
    assert!(!bp.report_overlap(&plane, &plane));
    assert!(!bp.report_overlap(&plane, &wall));
    assert_eq!(bp.pairs.len(), 0);
}

#[test]
fn remove_drops_body_and_its_pairs() {
    let a = rigid(0, true);
    let b = rigid(1, true);
    let c = rigid(2, true);
    let mut det = detector_with(&[a, b, c], &[(0, 1), (1, 2), (0, 2)]);
    det.remove(&b);
    assert_eq!(det.broad_phase.leaves.len(), 2);
    assert_eq!(det.broad_phase.pairs.len(), 1);
    assert_eq!(det.broad_phase.pairs[0].body_a.handle(), 0);
    assert_eq!(det.broad_phase.pairs[0].body_b.handle(), 2);
}

#[test]
fn separation_evicts_the_pair_and_its_manifold() {
    let a = rigid(0, true);
    let b = rigid(1, true);
    let mut det = detector_with(&[a, b], &[(0, 1)]);
    assert!(det.update_pair(0, 1, vec![0.5]));
    assert!(det.broad_phase.report_separation(1, 0));
    assert_eq!(det.broad_phase.pairs.len(), 0);
    assert!(!det.broad_phase.report_separation(0, 1));
    let mut out: Vec<Constraint<f64>> = Vec::new();
    det.interferences(&mut out);
    assert_eq!(out.len(), 0);
}

#[test]
fn update_targets_lists_supported_pairs_in_order() {
    let a = rigid(0, true);
    let b = rigid(1, true);
    let blob = soft(2);
    let mut det = detector_with(&[a, b, blob], &[(0, 2), (0, 1), (1, 2)]);
    assert_eq!(det.broad_phase.pairs.len(), 3);
    let targets = det.update_targets();
    assert_eq!(targets, vec![(0, 1)]);
    assert!(det.update_pair(0, 1, vec![0.25]));
    assert!(!det.update_pair(0, 2, vec![0.5]));
    assert!(!det.update_pair(5, 6, vec![0.5]));
}

#[test]
fn interferences_emits_contacts_in_cache_order() {
    let a = rigid(0, true);
    let b = rigid(1, true);
    let c = rigid(2, false);
    let mut det = detector_with(&[a, b, c], &[(0, 1), (1, 2)]);
    assert!(det.update_pair(0, 1, vec![0.5, 0.75]));
    assert!(det.update_pair(1, 2, vec![0.125]));
    let mut out: Vec<Constraint<f64>> = Vec::new();
    det.interferences(&mut out);
    assert_eq!(out.len(), 3);
    let expected = [(0usize, 1usize, 0.5f64), (0, 1, 0.75), (1, 2, 0.125)];
    for (k, (ea, eb, ec)) in expected.iter().enumerate() {
        let Constraint::RBRB(ba, bb, contact) = out[k];
        assert_eq!(ba.handle(), *ea);
        assert_eq!(bb.handle(), *eb);
        assert_eq!(contact, *ec);
    }
}

#[test]
fn manifolds_persist_across_drains() {
    let a = rigid(0, true);
    let b = rigid(1, false);
    let mut det = detector_with(&[a, b], &[(0, 1)]);
    assert!(det.update_pair(0, 1, vec![0.5]));
    let mut first: Vec<Constraint<f64>> = Vec::new();
    det.interferences(&mut first);
    let mut second: Vec<Constraint<f64>> = Vec::new();
    det.interferences(&mut second);
    assert_eq!(first.len(), 1);
    assert_eq!(second.len(), 1);
    let Constraint::RBRB(_, _, c1) = first[0];
    let Constraint::RBRB(_, _, c2) = second[0];
    assert_eq!(c1, c2);
}

#[test]
fn activate_reemits_only_the_woken_bodys_pairs() {
    let a = rigid(0, true);
    let b = rigid(1, false);
    let c = rigid(2, true);
    let d = rigid(3, true);
    let mut det = detector_with(&[a, b, c, d], &[(0, 1), (2, 3)]);
    assert!(det.update_pair(0, 1, vec![0.5]));
    assert!(det.update_pair(2, 3, vec![0.875]));
    det.deactivate(0);
    assert!(!det.broad_phase.leaves[0].active);
    assert_eq!(det.broad_phase.pairs.len(), 2);
    let mut out: Vec<Constraint<f64>> = Vec::new();
    det.activate(0, &mut out);
    assert!(det.broad_phase.leaves[0].active);
    assert_eq!(out.len(), 1);
    let Constraint::RBRB(ba, bb, contact) = out[0];
    assert_eq!(ba.handle(), 0);
    assert_eq!(bb.handle(), 1);
    assert_eq!(contact, 0.5);
}

#[test]
fn deactivate_keeps_the_pair_cache() {
    let a = rigid(0, true);
    let b = rigid(1, false);
    let mut det = detector_with(&[a, b], &[(0, 1)]);
    assert!(det.update_pair(0, 1, vec![0.5]));
    det.deactivate(0);
    assert_eq!(det.broad_phase.pairs.len(), 1);
    assert!(!det.broad_phase.leaves[0].active);
    assert!(det.broad_phase.leaves[1].active);
}

#[test]
fn identical_call_sequences_give_identical_results() {
    // Determinism: two detectors fed the same initial conditions and call
    // sequence report bitwise-identical constraints and ray answers.
    let run = || {
        let a = rigid(0, true);
        let b = rigid(1, false);
        let c = rigid(2, true);
        let mut det = detector_with(&[a, b, c], &[(0, 1), (0, 2)]);
        assert!(det.update_pair(0, 1, vec![0.5]));
        assert!(det.update_pair(0, 2, vec![0.25, 0.333333333333333]));
        let mut out: Vec<Constraint<f64>> = Vec::new();
        det.interferences(&mut out);
        let mut hits: Vec<(Body, f64)> = Vec::new();
        det.interferences_with_ray(&vec![a, c], &vec![Some(1.25), None], &mut hits);
        (det.update_targets(), out, hits)
    };
    let (t1, o1, h1) = run();
    let (t2, o2, h2) = run();
    assert_eq!(t1, t2);
    assert_eq!(o1.len(), o2.len());
    for k in 0..o1.len() {
        let Constraint::RBRB(a1, b1, c1) = o1[k];
        let Constraint::RBRB(a2, b2, c2) = o2[k];
        assert_eq!(a1.handle(), a2.handle());
        assert_eq!(b1.handle(), b2.handle());
        assert_eq!(c1.to_bits(), c2.to_bits());
    }
    assert_eq!(h1.len(), h2.len());
    for k in 0..h1.len() {
        assert_eq!(h1[k].0.handle(), h2[k].0.handle());
        assert_eq!(h1[k].1.to_bits(), h2[k].1.to_bits());
    }
}

#[test]
fn no_constraint_ever_pairs_two_static_bodies() {
    let plane = rigid(0, false);
    let wall = rigid(1, false);
    let ball = rigid(2, true);
    let mut bus = SignalBus::new();
    let mut bp: BroadPhase<f64> = BroadPhase::new(Dispatcher::new());
    bp.add(plane);
    bp.add(wall);
    bp.add(ball);
    bp.report_overlap(&plane, &wall);
    bp.report_overlap(&plane, &ball);
    bp.report_overlap(&wall, &ball);
    let mut det = BodiesBodies::new(&mut bus, 1, bp, true);
    for (a, b) in det.update_targets() {
        assert!(det.update_pair(a, b, vec![0.0625]));
    }
    let mut out: Vec<Constraint<f64>> = Vec::new();
    det.interferences(&mut out);
    assert_eq!(out.len(), 2);
    for k in 0..out.len() {
        let Constraint::RBRB(a, b, _) = out[k];
        assert!(a.can_move() || b.can_move());
    }
}

#[test]
fn add_and_remove_respect_update_bf() {
    let mut bus = SignalBus::new();
    let bp: BroadPhase<f64> = BroadPhase::new(Dispatcher::new());
    let mut det = BodiesBodies::new(&mut bus, 1, bp, false);
    let a = rigid(0, true);
    det.add(&a);
    assert_eq!(det.broad_phase.leaves.len(), 0);
    det.remove(&a);
    assert_eq!(det.broad_phase.leaves.len(), 0);
}

#[test]
fn new_detector_subscribes_to_activation_signals() {
    let mut bus = SignalBus::new();
    let bp: BroadPhase<f64> = BroadPhase::new(Dispatcher::new());
    let _det = BodiesBodies::new(&mut bus, 7, bp, true);
    assert_eq!(bus.fan_out(Channel::BodyActivated), vec![7]);
    assert_eq!(bus.fan_out(Channel::BodyDeactivated), vec![7]);
    assert_eq!(bus.fan_out(Channel::BodyAdded), Vec::<usize>::new());
}

#[test]
fn detector_priority_is_fifty() {
    let mut bus = SignalBus::new();
    let bp: BroadPhase<f64> = BroadPhase::new(Dispatcher::new());
    let det = BodiesBodies::new(&mut bus, 1, bp, true);
    assert_eq!(det.priority(), 50);
}
