//! The engine's boundary: validated construction and insertion, removal
//! by index, and the mass budget.

use gravity::object::CelestialObject;
use gravity::simulation::{SimError, Simulation};

#[test]
fn non_positive_mass_is_rejected() {
    let mut sim = Simulation::new(Vec::new(), 1_000_000).unwrap();
    let zero = CelestialObject::new(0, 0, 0);
    assert_eq!(sim.insert(zero), Err(SimError::NonPositiveMass));
    let negative = CelestialObject::new(0, 0, -5);
    assert_eq!(sim.insert(negative), Err(SimError::NonPositiveMass));
    assert_eq!(sim.bodies().len(), 0);
}

#[test]
fn out_of_range_coordinate_is_rejected() {
    let mut sim = Simulation::new(Vec::new(), 1_000_000).unwrap();
    let far = CelestialObject::new(10_000_000_001, 0, 1_000_000);
    assert_eq!(sim.insert(far), Err(SimError::OutOfBounds));
    let deep = CelestialObject::new(0, -10_000_000_001, 1_000_000);
    assert_eq!(sim.insert(deep), Err(SimError::OutOfBounds));
    assert_eq!(sim.bodies().len(), 0);
}

#[test]
fn mass_budget_is_enforced() {
    let mut sim = Simulation::new(Vec::new(), 1_000_000).unwrap();
    let whale = CelestialObject::new(0, 0, 10_000_000_000);
    assert_eq!(sim.insert(whale), Ok(()));
    let crumb = CelestialObject::new(500_000_000, 0, 1);
    assert_eq!(sim.insert(crumb), Err(SimError::MassBudgetExceeded));
    assert_eq!(sim.bodies().len(), 1);
    assert_eq!(sim.total_mass(), 10_000_000_000);
}

#[test]
fn time_step_is_validated() {
    assert!(matches!(
        Simulation::new(Vec::new(), 0),
        Err(SimError::InvalidTimeStep)
    ));
    assert!(matches!(
        Simulation::new(Vec::new(), -3),
        Err(SimError::InvalidTimeStep)
    ));
    assert!(matches!(
        Simulation::new(Vec::new(), 100_000_001),
        Err(SimError::InvalidTimeStep)
    ));
    assert!(Simulation::new(Vec::new(), 100_000_000).is_ok());
    assert!(Simulation::new(Vec::new(), 1).is_ok());
}

#[test]
fn construction_validates_each_body_in_order() {
    let good = CelestialObject::new(0, 0, 1_000_000);
    let bad = CelestialObject::new(1_000_000, 0, -1);
    let r = Simulation::new(vec![good, bad], 1_000_000);
    assert!(matches!(r, Err(SimError::NonPositiveMass)));
    let r2 = Simulation::new(vec![good], 1_000_000).unwrap();
    assert_eq!(r2.bodies().len(), 1);
    assert_eq!(r2.bodies()[0], good);
}

#[test]
fn insertion_appends_in_order() {
    let mut sim = Simulation::new(Vec::new(), 1_000_000).unwrap();
    let a = CelestialObject::new(0, 0, 1_000_000);
    let b = CelestialObject::new(900_000_000, 0, 2_000_000);
    assert_eq!(sim.insert(a), Ok(()));
    assert_eq!(sim.insert(b), Ok(()));
    let bodies = sim.bodies();
    assert_eq!(bodies.len(), 2);
    assert_eq!(bodies[0], a);
    assert_eq!(bodies[1], b);
    assert_eq!(sim.total_mass(), 3_000_000);
}

#[test]
fn removal_shifts_later_bodies_down() {
    let a = CelestialObject::new(0, 0, 1_000_000);
    let b = CelestialObject::new(900_000_000, 0, 2_000_000);
    let c = CelestialObject::new(-900_000_000, 0, 3_000_000);
    let mut sim = Simulation::new(vec![a, b, c], 1_000_000).unwrap();
    sim.remove(1);
    let bodies = sim.bodies();
    assert_eq!(bodies.len(), 2);
    assert_eq!(bodies[0], a);
    assert_eq!(bodies[1], c);
    assert_eq!(sim.total_mass(), 4_000_000);
}

#[test]
fn tick_on_empty_collection_is_a_no_op() {
    let mut sim = Simulation::new(Vec::new(), 1_000_000).unwrap();
    sim.update();
    assert_eq!(sim.bodies().len(), 0);
    assert_eq!(sim.total_mass(), 0);
}

#[test]
fn validity_probe_matches_insertion() {
    let good = CelestialObject::new(0, 0, 1_000_000);
    assert!(gravity::object::is_valid_body(&good));
    let bad = CelestialObject::new(0, 0, 0);
    assert!(!gravity::object::is_valid_body(&bad));
    let far = CelestialObject::new(10_000_000_001, 0, 1_000_000);
    assert!(!gravity::object::is_valid_body(&far));
}
