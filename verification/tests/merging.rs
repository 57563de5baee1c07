//! Collision detection and the inelastic merge, end to end.
//! Coordinates and masses are fixed-point: 1_000_000 per simulation unit.

use gravity::object::CelestialObject;
use gravity::simulation::{Simulation, FIXED_COLOR};

#[test]
fn overlapping_pair_merges_into_one() {
    // Masses 1000 and 300, 40 units apart: radii 33.62 + 19.32 > 40,
    // so one tick produces a single body of the pooled mass wearing the
    // heavier body's palette index, at the mass-weighted centroid of
    // the integrated positions.
    let mut b0 = CelestialObject::new(0, 0, 1_000_000_000);
    b0.color = 3;
    let mut b1 = CelestialObject::new(40_000_000, 0, 300_000_000);
    b1.color = 5;
    let mut sim = Simulation::new(vec![b0, b1], 1_000_000).unwrap();
    sim.update();
    let bodies = sim.bodies();
    assert_eq!(bodies.len(), 1);
    let m = bodies[0];
    assert_eq!(m.mass, 1_300_000_000);
    assert_eq!(m.color, 3);
    assert!(!m.fixed);
    // Integrated positions: 3.75 and 27.5; centroid:
    // (1000 * 3.75 + 300 * 27.5) / 1300 = 9.230769...
    assert_eq!(m.x, 9_230_769);
    assert_eq!(m.y, 0);
    assert_eq!(m.prev_x, 9_230_769);
    assert_eq!(m.prev_y, 0);
}

#[test]
fn three_way_overlap_conserves_total_mass() {
    // Three mutually overlapping bodies in one tick. The engine merges
    // candidate pairs in row-major order and skips a pair whose
    // participant was already absorbed, so the chain collapses into a
    // single body and total mass is conserved exactly.
    let mut b0 = CelestialObject::new(0, 0, 300_000_000);
    b0.color = 2;
    let mut b1 = CelestialObject::new(10_000_000, 0, 200_000_000);
    b1.color = 4;
    let mut b2 = CelestialObject::new(20_000_000, 0, 100_000_000);
    b2.color = 5;
    let mut sim = Simulation::new(vec![b0, b1, b2], 1_000_000).unwrap();
    assert_eq!(sim.total_mass(), 600_000_000);
    sim.update();
    assert_eq!(sim.total_mass(), 600_000_000);
    let bodies = sim.bodies();
    assert_eq!(bodies.len(), 1);
    assert_eq!(bodies[0].mass, 600_000_000);
    assert_eq!(bodies[0].color, 2);
}

#[test]
fn merge_with_fixed_body_pins_the_result() {
    // A fixed body absorbing a mobile one yields a fixed, stationary
    // body wearing the dedicated fixed palette index.
    let mut b0 = CelestialObject::new(0, 0, 1_000_000_000);
    b0.fixed = true;
    b0.color = 1;
    let b1 = CelestialObject::new(30_000_000, 0, 100_000_000);
    let mut sim = Simulation::new(vec![b0, b1], 1_000_000).unwrap();
    sim.update();
    let bodies = sim.bodies();
    assert_eq!(bodies.len(), 1);
    let m = bodies[0];
    assert_eq!(m.mass, 1_100_000_000);
    assert!(m.fixed);
    assert_eq!(m.color, FIXED_COLOR);
    assert_eq!(m.prev_x, m.x);
    assert_eq!(m.prev_y, m.y);
}

#[test]
fn fixed_body_never_moves_under_forces() {
    // A fixed body keeps its exact position over several ticks while
    // still attracting the mobile body toward it.
    let mut anchor = CelestialObject::new(0, 0, 1_000_000_000);
    anchor.fixed = true;
    let satellite = CelestialObject::new(300_000_000, 0, 100_000_000);
    let mut sim = Simulation::new(vec![anchor, satellite], 1_000_000).unwrap();
    sim.update();
    sim.update();
    let bodies = sim.bodies();
    assert_eq!(bodies.len(), 2);
    assert_eq!(bodies[0].x, 0);
    assert_eq!(bodies[0].y, 0);
    assert_eq!(bodies[0].prev_x, 0);
    assert_eq!(bodies[0].prev_y, 0);
    assert!(bodies[0].fixed);
    assert!(bodies[1].x < 300_000_000);
}

#[test]
fn equal_mass_tie_keeps_the_first_body() {
    // On an exact mass tie the lower-indexed body keeps its slot and
    // its palette index.
    let mut b0 = CelestialObject::new(0, 0, 500_000_000);
    b0.color = 1;
    let mut b1 = CelestialObject::new(10_000_000, 0, 500_000_000);
    b1.color = 4;
    let mut sim = Simulation::new(vec![b0, b1], 1_000_000).unwrap();
    sim.update();
    let bodies = sim.bodies();
    assert_eq!(bodies.len(), 1);
    assert_eq!(bodies[0].mass, 1_000_000_000);
    assert_eq!(bodies[0].color, 1);
}

#[test]
fn total_mass_is_conserved_across_many_ticks() {
    // A scattered cluster: whatever merges happen over several ticks,
    // the total mass never changes.
    let bodies = vec![
        CelestialObject::new(0, 0, 800_000_000),
        CelestialObject::new(60_000_000, 0, 150_000_000),
        CelestialObject::new(-50_000_000, 40_000_000, 90_000_000),
        CelestialObject::new_v0(0, -120_000_000, 30_000_000, 1_500_000, 0),
        CelestialObject::new(200_000_000, 200_000_000, 10_000_000),
    ];
    let mut sim = Simulation::new(bodies, 1_000_000).unwrap();
    let before = sim.total_mass();
    assert_eq!(before, 1_080_000_000);
    for _ in 0..10 {
        sim.update();
        assert_eq!(sim.total_mass(), before);
    }
    assert!(sim.bodies().len() <= 5);
}

#[test]
fn coincident_bodies_merge_instead_of_dividing_by_zero() {
    // Two distinct bodies on the exact same point: the force law is
    // undefined there, so the pair is treated as an immediate merge.
    let b0 = CelestialObject::new(7_000_000, 7_000_000, 400_000_000);
    let b1 = CelestialObject::new(7_000_000, 7_000_000, 100_000_000);
    let mut sim = Simulation::new(vec![b0, b1], 1_000_000).unwrap();
    sim.update();
    let bodies = sim.bodies();
    assert_eq!(bodies.len(), 1);
    assert_eq!(bodies[0].mass, 500_000_000);
    assert_eq!(bodies[0].x, 7_000_000);
    assert_eq!(bodies[0].y, 7_000_000);
}
