//! Force law, integration and the radius mapping, on concrete values.
//! Coordinates and masses are fixed-point: 1_000_000 per simulation unit.

use gravity::object::CelestialObject;
use gravity::simulation::{mass_to_radius, Simulation};

#[test]
fn force_is_antisymmetric() {
    // Two bodies 5 units apart (a 3-4-5 triangle).
    let a = CelestialObject::new(0, 0, 2_000_000);
    let mut b = CelestialObject::new(3_000_000, 4_000_000, 5_000_000);
    b.color = 1;
    let fab = a.calculate_force(&b);
    let fba = b.calculate_force(&a);
    assert_eq!(fab.0, -fba.0);
    assert_eq!(fab.1, -fba.1);
    // magnitude = 20 * 2 * 5 / 25 = 8, direction (3/5, 4/5):
    // fx = 4.8, fy = 6.4 simulation units.
    assert_eq!(fab, (4_800_000, 6_400_000));
}

#[test]
fn force_antisymmetric_uneven_pair() {
    let a = CelestialObject::new(-7_000_000, 11_000_000, 123_456_789);
    let b = CelestialObject::new(20_000_000, -9_000_000, 987_654_321);
    let fab = a.calculate_force(&b);
    let fba = b.calculate_force(&a);
    assert_eq!(fab.0, -fba.0);
    assert_eq!(fab.1, -fba.1);
}

#[test]
fn one_tick_reference_displacement() {
    // Masses 1000 and 300 at (0, 0) and (500, 0), both at rest, dt = 1.
    // accel on body 1 = 20 * 1000 / 500^2 = 0.08 toward the origin;
    // accel on body 0 = 20 * 300 / 500^2 = 0.024 toward body 1.
    let b0 = CelestialObject::new(0, 0, 1_000_000_000);
    let b1 = CelestialObject::new(500_000_000, 0, 300_000_000);
    let mut sim = Simulation::new(vec![b0, b1], 1_000_000).unwrap();
    sim.update();
    let bodies = sim.bodies();
    assert_eq!(bodies.len(), 2);
    assert_eq!(bodies[0].x, 24_000);
    assert_eq!(bodies[0].y, 0);
    assert_eq!(bodies[0].prev_x, 0);
    assert_eq!(bodies[0].prev_y, 0);
    assert_eq!(bodies[1].x, 499_920_000);
    assert_eq!(bodies[1].y, 0);
    assert_eq!(bodies[1].prev_x, 500_000_000);
    assert_eq!(bodies[1].prev_y, 0);
}

#[test]
fn equal_masses_at_rest_move_symmetrically() {
    // Two bodies of mass 1000 at rest, 400 units apart: after one tick
    // the displacements are equal and opposite (0.125 units each).
    let b0 = CelestialObject::new(0, 0, 1_000_000_000);
    let b1 = CelestialObject::new(400_000_000, 0, 1_000_000_000);
    let mut sim = Simulation::new(vec![b0, b1], 1_000_000).unwrap();
    sim.update();
    let bodies = sim.bodies();
    assert_eq!(bodies.len(), 2);
    let d0 = bodies[0].x - 0;
    let d1 = bodies[1].x - 400_000_000;
    assert_eq!(d0, -d1);
    assert_eq!(bodies[0].y, 0);
    assert_eq!(bodies[1].y, 0);
    assert_eq!(d0, 125_000);
}

#[test]
fn radius_is_sqrt_mass_plus_two() {
    // mass 1 -> radius 3; mass 0 -> radius 2; mass 1000 -> 33.622776.
    assert_eq!(mass_to_radius(1_000_000), 3_000_000);
    assert_eq!(mass_to_radius(0), 2_000_000);
    assert_eq!(mass_to_radius(1_000_000_000), 33_622_776);
}

#[test]
fn velocity_seeded_body_encodes_offset() {
    let b = CelestialObject::new_v0(10, 20, 7, 3, -4);
    assert_eq!(b.x, 13);
    assert_eq!(b.y, 16);
    assert_eq!(b.prev_x, 10);
    assert_eq!(b.prev_y, 20);
    assert_eq!(b.mass, 7);
    assert_eq!(b.color, 0);
    assert!(!b.fixed);
}

#[test]
fn body_at_rest_with_no_neighbors_stays_put() {
    let b = CelestialObject::new(5_000_000, -3_000_000, 42_000_000);
    let mut sim = Simulation::new(vec![b], 1_000_000).unwrap();
    sim.update();
    sim.update();
    let bodies = sim.bodies();
    assert_eq!(bodies.len(), 1);
    assert_eq!(bodies[0].x, 5_000_000);
    assert_eq!(bodies[0].y, -3_000_000);
}

#[test]
fn integration_shifts_position_history() {
    // A body with velocity (1, 0) per step drifts with no one around.
    let b = CelestialObject::new_v0(0, 0, 1_000_000, 1_000_000, 0);
    let mut sim = Simulation::new(vec![b], 1_000_000).unwrap();
    sim.update();
    let bodies = sim.bodies();
    assert_eq!(bodies[0].x, 2_000_000);
    assert_eq!(bodies[0].prev_x, 1_000_000);
}
