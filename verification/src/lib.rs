//! A brute-force N-body gravity simulator over fixed-point integers.
//!
//! Bodies attract each other with an inverse-square law, advance by
//! Stoermer-Verlet integration, and merge inelastically when their
//! surfaces touch. A side channel projects the trajectory of a
//! hypothetical extra body without disturbing the real collection.

pub mod math;
pub mod object;
pub mod simulation;
pub mod laws;
