//! One celestial body: its fixed-point state, the pairwise gravitational
//! force law, and the Stoermer-Verlet integration step.

use vstd::prelude::*;
use crate::math::{
    SCALE, GRAV, COORD_LIMIT, MASS_LIMIT, ACCEL_LIMIT, DT_LIMIT, FORCE_PART_MAX, clamped,
    clamp_i128, tdiv, div_trunc, isqrt, isqrt_spec, lemma_tdiv_abs_le,
};

verus! {

/// A point mass. Coordinates and mass are fixed-point integers counted in
/// quanta of `1 / SCALE` simulation units. Velocity is implicit: `prev_x`
/// and `prev_y` hold the position one integration step in the past.
/// `color` is an opaque classification index for the rendering layer; the
/// engine only carries it through merges.
#[derive(Clone, Copy, PartialEq, Eq, Structural, Debug)]
pub struct CelestialObject {
    pub x: i64,
    pub y: i64,
    pub mass: i64,
    pub prev_x: i64,
    pub prev_y: i64,
    pub color: usize,
    pub fixed: bool,
}

/// A body the engine accepts: positive mass within the mass budget, and
/// all four coordinates within the coordinate domain.
pub open spec fn valid_body(b: CelestialObject) -> bool {
    &&& 1 <= b.mass <= MASS_LIMIT
    &&& -COORD_LIMIT <= b.x <= COORD_LIMIT
    &&& -COORD_LIMIT <= b.y <= COORD_LIMIT
    &&& -COORD_LIMIT <= b.prev_x <= COORD_LIMIT
    &&& -COORD_LIMIT <= b.prev_y <= COORD_LIMIT
}

/// Squared Euclidean distance between the current positions.
pub open spec fn dist2(a: CelestialObject, b: CelestialObject) -> int {
    (b.x - a.x) * (b.x - a.x) + (b.y - a.y) * (b.y - a.y)
}

/// Euclidean distance, rounded down to the fixed-point grid.
pub open spec fn dist(a: CelestialObject, b: CelestialObject) -> int {
    isqrt_spec(dist2(a, b))
}

pub proof fn lemma_dist2_nonneg(a: CelestialObject, b: CelestialObject)
    ensures
        dist2(a, b) >= 0,
{
    assert((b.x - a.x) * (b.x - a.x) >= 0) by (nonlinear_arith);
    assert((b.y - a.y) * (b.y - a.y) >= 0) by (nonlinear_arith);
}

pub proof fn lemma_dist2_symmetric(a: CelestialObject, b: CelestialObject)
    ensures
        dist2(a, b) == dist2(b, a),
{
    assert((b.x - a.x) * (b.x - a.x) == (a.x - b.x) * (a.x - b.x)) by (nonlinear_arith);
    assert((b.y - a.y) * (b.y - a.y) == (a.y - b.y) * (a.y - b.y)) by (nonlinear_arith);
}

/// The x component of the gravitational force exerted on `a` by `b`:
/// `GRAV * m_a * m_b / dist^2`, aimed along the unit vector from `a`
/// toward `b`, evaluated in fixed point as one truncating division.
/// Undefined (by `recommends`) when the positions coincide.
pub open spec fn force_x(a: CelestialObject, b: CelestialObject) -> int
    recommends
        dist2(a, b) != 0,
{
    tdiv(GRAV * a.mass * b.mass * SCALE * (b.x - a.x), dist2(a, b) * dist(a, b))
}

/// The y component of the force exerted on `a` by `b`.
pub open spec fn force_y(a: CelestialObject, b: CelestialObject) -> int
    recommends
        dist2(a, b) != 0,
{
    tdiv(GRAV * a.mass * b.mass * SCALE * (b.y - a.y), dist2(a, b) * dist(a, b))
}

/// Displacement contributed by acceleration `a` over one step of length
/// `dt`: `a * dt * dt`, rescaled after each multiplication.
pub open spec fn disp_of(a: int, dt: int) -> int {
    tdiv(tdiv(a * dt, SCALE as int) * dt, SCALE as int)
}

/// The Stoermer-Verlet position update for one axis, saturated into the
/// coordinate domain: `2 * x - prev_x + a * dt^2`.
pub open spec fn verlet_x(b: CelestialObject, ax: int, dt: int) -> int {
    clamped(2 * b.x - b.prev_x + disp_of(ax, dt), COORD_LIMIT as int)
}

pub open spec fn verlet_y(b: CelestialObject, ay: int, dt: int) -> int {
    clamped(2 * b.y - b.prev_y + disp_of(ay, dt), COORD_LIMIT as int)
}

/// The body after one integration step: the position advances and the
/// previous position becomes the pre-update position.
pub open spec fn verlet_step(b: CelestialObject, ax: int, ay: int, dt: int) -> CelestialObject {
    CelestialObject {
        x: verlet_x(b, ax, dt) as i64,
        y: verlet_y(b, ay, dt) as i64,
        mass: b.mass,
        prev_x: b.x,
        prev_y: b.y,
        color: b.color,
        fixed: b.fixed,
    }
}

/// Exact fixed-point displacement `a * dt^2 / SCALE^2`, truncating after
/// each multiplication by `dt`.
fn displacement(a: i64, dt: i64) -> (r: i128)
    requires
        -ACCEL_LIMIT <= a <= ACCEL_LIMIT,
        1 <= dt <= DT_LIMIT,
    ensures
        r == disp_of(a as int, dt as int),
        -10_000_000_000_000_000_000_000_000_000_000_000 <= r
            <= 10_000_000_000_000_000_000_000_000_000_000_000,
{
    proof {
        assert(-100_000_000_000_000_000_000_000_000 <= (a as i128) * (dt as i128)
            <= 100_000_000_000_000_000_000_000_000) by (nonlinear_arith)
            requires
                -1_000_000_000_000_000_000 <= a as i128 <= 1_000_000_000_000_000_000,
                1 <= dt as i128 <= 100_000_000,
        ;
    }
    let t1: i128 = (a as i128) * (dt as i128);
    let t2: i128 = div_trunc(t1, SCALE as i128);
    proof {
        lemma_tdiv_abs_le(t1 as int, SCALE as int);
        assert(-10_000_000_000_000_000_000_000_000_000_000_000 <= t2 * (dt as i128)
            <= 10_000_000_000_000_000_000_000_000_000_000_000) by (nonlinear_arith)
            requires
                -100_000_000_000_000_000_000_000_000 <= t2 <= 100_000_000_000_000_000_000_000_000,
                1 <= dt as i128 <= 100_000_000,
        ;
    }
    let t3: i128 = t2 * (dt as i128);
    let r = div_trunc(t3, SCALE as i128);
    proof {
        lemma_tdiv_abs_le(t3 as int, SCALE as int);
    }
    r
}

impl CelestialObject {
    /// The gravitational force `(fx, fy)` that `source` exerts on `self`.
    pub fn calculate_force(&self, source: &CelestialObject) -> (r: (i128, i128))
        requires
            valid_body(*self),
            valid_body(*source),
            dist2(*self, *source) != 0,
        ensures
            r.0 == force_x(*self, *source),
            r.1 == force_y(*self, *source),
            -FORCE_PART_MAX <= r.0 <= FORCE_PART_MAX,
            -FORCE_PART_MAX <= r.1 <= FORCE_PART_MAX,
    {
        proof {
            lemma_dist2_nonneg(*self, *source);
        }
        let dx: i128 = (source.x as i128) - (self.x as i128);
        let dy: i128 = (source.y as i128) - (self.y as i128);
        proof {
            assert(0 <= dx * dx <= 400_000_000_000_000_000_000 && 0 <= dy * dy
                <= 400_000_000_000_000_000_000) by (nonlinear_arith)
                requires
                    -20_000_000_000 <= dx <= 20_000_000_000,
                    -20_000_000_000 <= dy <= 20_000_000_000,
            ;
        }
        let d2: i128 = dx * dx + dy * dy;
        let droot: u128 = isqrt(d2 as u128);
        proof {
            assert(droot <= 30_000_000_000) by (nonlinear_arith)
                requires
                    droot * droot <= 800_000_000_000_000_000_000,
            ;
        }
        let d: i128 = droot as i128;
        let m1: i128 = self.mass as i128;
        let m2: i128 = source.mass as i128;
        proof {
            assert(0 <= (GRAV as i128) * m1 * m2 <= 2_000_000_000_000_000_000_000)
                by (nonlinear_arith)
                requires
                    1 <= m1 <= 10_000_000_000,
                    1 <= m2 <= 10_000_000_000,
                    GRAV as i128 == 20,
            ;
        }
        let t2: i128 = (GRAV as i128) * m1 * m2;
        let t3: i128 = t2 * (SCALE as i128);
        proof {
            assert(-FORCE_PART_MAX <= t3 * dx <= FORCE_PART_MAX && -FORCE_PART_MAX <= t3 * dy
                <= FORCE_PART_MAX) by (nonlinear_arith)
                requires
                    0 <= t3 <= 2_000_000_000_000_000_000_000_000_000,
                    -20_000_000_000 <= dx <= 20_000_000_000,
                    -20_000_000_000 <= dy <= 20_000_000_000,
                    FORCE_PART_MAX == 40_000_000_000_000_000_000_000_000_000_000_000_000i128,
            ;
        }
        let num_x: i128 = t3 * dx;
        let num_y: i128 = t3 * dy;
        proof {
            assert(d2 >= 1);
            assert(droot >= 1) by (nonlinear_arith)
                requires
                    d2 < (droot + 1) * (droot + 1),
                    d2 >= 1,
            ;
            assert(1 <= d2 * d <= 24_000_000_000_000_000_000_000_000_000_000) by (nonlinear_arith)
                requires
                    1 <= d2 <= 800_000_000_000_000_000_000,
                    1 <= d <= 30_000_000_000,
            ;
        }
        let den: i128 = d2 * d;
        let fx = div_trunc(num_x, den);
        let fy = div_trunc(num_y, den);
        proof {
            lemma_tdiv_abs_le(num_x as int, den as int);
            lemma_tdiv_abs_le(num_y as int, den as int);
        }
        (fx, fy)
    }

    /// Advance this body one step under acceleration `acc`, in place:
    /// the new position is `2 * pos - prev + acc * dt^2` on each axis
    /// (saturated into the coordinate domain) and `prev` becomes the
    /// pre-update position.
    pub fn update_fields_from_force(&mut self, acc: (i64, i64), dt: i64)
        requires
            valid_body(*old(self)),
            -ACCEL_LIMIT <= acc.0 <= ACCEL_LIMIT,
            -ACCEL_LIMIT <= acc.1 <= ACCEL_LIMIT,
            1 <= dt <= DT_LIMIT,
        ensures
            *final(self) == verlet_step(*old(self), acc.0 as int, acc.1 as int, dt as int),
            valid_body(*final(self)),
    {
        let dispx = displacement(acc.0, dt);
        let dispy = displacement(acc.1, dt);
        let nx128: i128 = 2 * (self.x as i128) - (self.prev_x as i128) + dispx;
        let ny128: i128 = 2 * (self.y as i128) - (self.prev_y as i128) + dispy;
        let nx = clamp_i128(nx128, COORD_LIMIT as i128) as i64;
        let ny = clamp_i128(ny128, COORD_LIMIT as i128) as i64;
        self.prev_x = self.x;
        self.prev_y = self.y;
        self.x = nx;
        self.y = ny;
    }

    /// A body at rest: the previous position equals the initial one.
    pub fn new(x: i64, y: i64, mass: i64) -> (b: CelestialObject)
        ensures
            b == (CelestialObject {
                x,
                y,
                mass,
                prev_x: x,
                prev_y: y,
                color: 0 as usize,
                fixed: false,
            }),
    {
        CelestialObject { x, y, mass, prev_x: x, prev_y: y, color: 0 as usize, fixed: false }
    }

    /// A body with an initial velocity of `(v_x, v_y)` per step, encoded
    /// as the offset between the current and the previous position.
    pub fn new_v0(x: i64, y: i64, mass: i64, v_x: i64, v_y: i64) -> (b: CelestialObject)
        requires
            i64::MIN <= x + v_x <= i64::MAX,
            i64::MIN <= y + v_y <= i64::MAX,
        ensures
            b.x == x + v_x,
            b.y == y + v_y,
            b.mass == mass,
            b.prev_x == x,
            b.prev_y == y,
            b.color == 0,
            !b.fixed,
    {
        CelestialObject {
            x: x + v_x,
            y: y + v_y,
            mass,
            prev_x: x,
            prev_y: y,
            color: 0 as usize,
            fixed: false,
        }
    }
}

/// Whether the engine would accept this body.
pub fn is_valid_body(b: &CelestialObject) -> (r: bool)
    ensures
        r == valid_body(*b),
{
    1 <= b.mass && b.mass <= MASS_LIMIT && -COORD_LIMIT <= b.x && b.x <= COORD_LIMIT
        && -COORD_LIMIT <= b.y && b.y <= COORD_LIMIT && -COORD_LIMIT <= b.prev_x && b.prev_x
        <= COORD_LIMIT && -COORD_LIMIT <= b.prev_y && b.prev_y <= COORD_LIMIT
}

} // verus!
