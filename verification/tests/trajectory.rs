//! The trajectory projector: bounded, deterministic, and pure with
//! respect to the real body collection.

use gravity::object::CelestialObject;
use gravity::simulation::Simulation;

#[test]
fn zero_steps_yield_only_the_start_point() {
    let real = CelestialObject::new(0, 0, 1_000_000_000);
    let sim = Simulation::new(vec![real], 1_000_000).unwrap();
    let hyp = CelestialObject::new(200_000_000, 0, 10_000_000);
    let t = sim.calculate_trajectory(&hyp, 0, 5);
    assert_eq!(t, vec![(200_000_000, 0)]);
}

#[test]
fn already_overlapping_body_records_no_motion() {
    let real = CelestialObject::new(0, 0, 1_000_000_000);
    let sim = Simulation::new(vec![real], 1_000_000).unwrap();
    // Placed 10 units from the real body, well inside the radius sum.
    let hyp = CelestialObject::new(10_000_000, 0, 10_000_000);
    let t = sim.calculate_trajectory(&hyp, 1000, 5);
    assert_eq!(t, vec![(10_000_000, 0)]);
}

#[test]
fn projection_never_mutates_the_collection() {
    let b0 = CelestialObject::new(0, 0, 1_000_000_000);
    let b1 = CelestialObject::new(250_000_000, 40_000_000, 200_000_000);
    let sim = Simulation::new(vec![b0, b1], 1_000_000).unwrap();
    let before = sim.bodies().clone();
    let hyp = CelestialObject::new_v0(-100_000_000, 0, 5_000_000, 2_000_000, 1_000_000);
    let _ = sim.calculate_trajectory(&hyp, 500, 5);
    assert_eq!(*sim.bodies(), before);
}

#[test]
fn stride_controls_the_sample_count() {
    // With no bodies around, a body at rest never moves and nothing
    // stops the projection: way-points appear on every step whose
    // index is a multiple of the stride.
    let sim = Simulation::new(Vec::new(), 1_000_000).unwrap();
    let hyp = CelestialObject::new(1_000_000, 2_000_000, 10_000_000);
    let t = sim.calculate_trajectory(&hyp, 10, 5);
    assert_eq!(t.len(), 3);
    for p in &t {
        assert_eq!(*p, (1_000_000, 2_000_000));
    }
    let t1 = sim.calculate_trajectory(&hyp, 10, 1);
    assert_eq!(t1.len(), 11);
}

#[test]
fn projection_tracks_uniform_motion() {
    // Velocity (1, 0) per step and empty space: the path is a straight
    // line sampled after every step.
    let sim = Simulation::new(Vec::new(), 1_000_000).unwrap();
    let hyp = CelestialObject::new_v0(0, 0, 10_000_000, 1_000_000, 0);
    let t = sim.calculate_trajectory(&hyp, 3, 1);
    assert_eq!(
        t,
        vec![(1_000_000, 0), (2_000_000, 0), (3_000_000, 0), (4_000_000, 0)]
    );
}

#[test]
fn projection_is_deterministic() {
    let real = CelestialObject::new(0, 0, 1_000_000_000);
    let sim = Simulation::new(vec![real], 1_000_000).unwrap();
    let hyp = CelestialObject::new_v0(200_000_000, 0, 5_000_000, 0, 1_500_000);
    let t1 = sim.calculate_trajectory(&hyp, 200, 5);
    let t2 = sim.calculate_trajectory(&hyp, 200, 5);
    assert_eq!(t1, t2);
    assert!(t1.len() >= 1);
    assert_eq!(t1[0], (200_000_000, 1_500_000));
}

#[test]
fn projection_stops_at_impact() {
    // A body released at rest 100 units from a mass of 1000 (radius
    // sum 36.6) falls in, and the path ends early, well short of the
    // full sample budget.
    let real = CelestialObject::new(0, 0, 1_000_000_000);
    let sim = Simulation::new(vec![real], 1_000_000).unwrap();
    let hyp = CelestialObject::new(100_000_000, 0, 1_000_000);
    let t = sim.calculate_trajectory(&hyp, 5000, 1);
    assert!(t.len() > 1);
    assert!(t.len() < 5001);
    // The body falls monotonically along the axis it was released on.
    for w in t.windows(2) {
        assert!(w[1].0 < w[0].0);
        assert_eq!(w[1].1, 0);
    }
    assert_eq!(t[0], (100_000_000, 0));
}
