use nphysics::body::{Body, RigidBody};
use nphysics::bodies_bodies::BodiesBodies;
use nphysics::broad_phase::BroadPhase;
use nphysics::dispatcher::Dispatcher;
use nphysics::signal::{Channel, SignalBus};

#[test]
fn fan_out_preserves_registration_order() {
    let mut bus = SignalBus::new();
    bus.subscribe(Channel::BodyAdded, 30);
    bus.subscribe(Channel::BodyAdded, 10);
    bus.subscribe(Channel::BodyAdded, 20);
    assert_eq!(bus.fan_out(Channel::BodyAdded), vec![30, 10, 20]);
}

#[test]
fn channels_are_independent() {
    let mut bus = SignalBus::new();
    bus.subscribe(Channel::ConstraintAdded, 1);
    bus.subscribe(Channel::ConstraintRemoved, 2);
    assert_eq!(bus.fan_out(Channel::ConstraintAdded), vec![1]);
    assert_eq!(bus.fan_out(Channel::ConstraintRemoved), vec![2]);
    assert_eq!(bus.fan_out(Channel::BodyRemoved), Vec::<usize>::new());
}

#[test]
fn unsubscribe_removes_only_that_subscriber() {
    let mut bus = SignalBus::new();
    bus.subscribe(Channel::BodyActivated, 1);
    bus.subscribe(Channel::BodyActivated, 2);
    bus.subscribe(Channel::BodyActivated, 1);
    bus.subscribe(Channel::BodyDeactivated, 1);
    bus.unsubscribe(Channel::BodyActivated, 1);
    assert_eq!(bus.fan_out(Channel::BodyActivated), vec![2]);
    assert_eq!(bus.fan_out(Channel::BodyDeactivated), vec![1]);
}

#[test]
fn queued_emissions_drain_in_fifo_order() {
    let mut bus = SignalBus::new();
    bus.enqueue(Channel::BodyDeactivated);
    bus.enqueue(Channel::BodyActivated);
    assert_eq!(bus.drain_next(), Some(Channel::BodyDeactivated));
    assert_eq!(bus.drain_next(), Some(Channel::BodyActivated));
    assert_eq!(bus.drain_next(), None);
}

#[test]
fn sleeping_box_signals_its_subscribers_and_keeps_contacts() {
    // A box at rest on a static plane: the island manager decides the box is
    // quiescent and deactivates it; the detector's subscribers hear about it
    // and the resting contact stays cached for the wake-up re-emission.
    let plane = Body::RB(RigidBody { id: 0, movable: false });
    let cube = Body::RB(RigidBody { id: 1, movable: true });
    let mut bus = SignalBus::new();
    let mut bp: BroadPhase<f64> = BroadPhase::new(Dispatcher::new());
    bp.add(plane);
    bp.add(cube);
    assert!(bp.report_overlap(&plane, &cube));
    let mut det = BodiesBodies::new(&mut bus, 42, bp, true);
    assert!(det.update_pair(0, 1, vec![0.01]));

    let listeners = bus.fan_out(Channel::BodyDeactivated);
    assert_eq!(listeners, vec![42]);
    for _ in listeners {
        det.deactivate(1);
    }
    assert!(!det.broad_phase.leaves[1].active);
    assert_eq!(det.broad_phase.pairs.len(), 1);

    let mut reemitted = Vec::new();
    det.activate(1, &mut reemitted);
    assert_eq!(reemitted.len(), 1);
}
