//! The engine: owns the body collection, advances it one tick at a time
//! (pairwise forces, Verlet integration, inelastic merges, compaction),
//! and projects the trajectory of a hypothetical extra body without
//! touching the real collection.

use vstd::prelude::*;
use crate::math::{
    SCALE, COORD_LIMIT, MASS_LIMIT, RADIUS_PAD, FORCE_CLAMP, ACCEL_LIMIT, DT_LIMIT,
    clamped, clamp_i128, tdiv, div_trunc, isqrt, isqrt_spec, lemma_tdiv_bound,
};
use crate::object::{
    CelestialObject, valid_body, dist2, dist, force_x, force_y, verlet_step,
    lemma_dist2_nonneg, lemma_dist2_symmetric,
};

verus! {

/// Palette index forced onto a merged body that is fixed.
pub const FIXED_COLOR: usize = 6;

/// The radius a body of mass `m` occupies, for collision detection and
/// display: `sqrt(m) + 2` simulation units, on the fixed-point grid.
pub open spec fn radius_of(m: int) -> int {
    isqrt_spec(m * SCALE) + RADIUS_PAD
}

/// Fixed-point radius law `sqrt(mass) + 2`.
pub fn mass_to_radius(mass: i64) -> (r: i64)
    requires
        0 <= mass <= MASS_LIMIT,
    ensures
        r == radius_of(mass as int),
        RADIUS_PAD <= r <= 102_000_000,
{
    proof {
        assert((mass as u128) * (SCALE as u128) <= 10_000_000_000_000_000) by (nonlinear_arith)
            requires
                0 <= mass as u128 <= 10_000_000_000,
                SCALE as u128 == 1_000_000,
        ;
    }
    let n: u128 = (mass as u128) * (SCALE as u128);
    let root: u128 = isqrt(n);
    proof {
        assert(root <= 100_000_000) by (nonlinear_arith)
            requires
                root * root <= 10_000_000_000_000_000,
        ;
    }
    (root as i64) + RADIUS_PAD
}

/// Two bodies touch when their distance does not exceed the sum of
/// their radii. A distance of zero always touches.
pub open spec fn touching(a: CelestialObject, b: CelestialObject) -> bool {
    dist(a, b) <= radius_of(a.mass as int) + radius_of(b.mass as int)
}

pub proof fn lemma_touching_symmetric(a: CelestialObject, b: CelestialObject)
    ensures
        touching(a, b) == touching(b, a),
{
    lemma_dist2_symmetric(a, b);
}

/// Total mass held in a body sequence.
pub open spec fn mass_sum(s: Seq<CelestialObject>) -> int
    decreases s.len(),
{
    if s.len() == 0 {
        0
    } else {
        mass_sum(s.drop_last()) + s.last().mass
    }
}

/// Every body in the sequence is one the engine accepts.
pub open spec fn all_valid(s: Seq<CelestialObject>) -> bool {
    forall|i: int| 0 <= i < s.len() ==> valid_body(#[trigger] s[i])
}

/// The x component of the net force the first `k` bodies of `s` exert on
/// `b`. Contributions from coincident positions are skipped (such pairs
/// merge instead of attracting), and each partial sum saturates at
/// `FORCE_CLAMP`.
pub open spec fn net_fx(s: Seq<CelestialObject>, b: CelestialObject, k: int) -> int
    decreases k,
{
    if k <= 0 {
        0
    } else {
        let p = net_fx(s, b, k - 1);
        if dist2(b, s[k - 1]) == 0 {
            p
        } else {
            clamped(p + force_x(b, s[k - 1]), FORCE_CLAMP as int)
        }
    }
}

/// The y component of the net force; see `net_fx`.
pub open spec fn net_fy(s: Seq<CelestialObject>, b: CelestialObject, k: int) -> int
    decreases k,
{
    if k <= 0 {
        0
    } else {
        let p = net_fy(s, b, k - 1);
        if dist2(b, s[k - 1]) == 0 {
            p
        } else {
            clamped(p + force_y(b, s[k - 1]), FORCE_CLAMP as int)
        }
    }
}

/// Acceleration of `b` under the net force of `s`: net force divided by
/// the body's own mass, saturated at `ACCEL_LIMIT`. A fixed body's
/// acceleration is pinned to zero.
pub open spec fn accel_x(s: Seq<CelestialObject>, b: CelestialObject) -> int {
    if b.fixed {
        0
    } else {
        clamped(tdiv(net_fx(s, b, s.len() as int) * SCALE, b.mass as int), ACCEL_LIMIT as int)
    }
}

pub open spec fn accel_y(s: Seq<CelestialObject>, b: CelestialObject) -> int {
    if b.fixed {
        0
    } else {
        clamped(tdiv(net_fy(s, b, s.len() as int) * SCALE, b.mass as int), ACCEL_LIMIT as int)
    }
}

/// One integration step of `b` under the influence of `s`. A fixed body
/// is left untouched: its position history never changes.
pub open spec fn integrate_one(
    s: Seq<CelestialObject>,
    b: CelestialObject,
    dt: int,
) -> CelestialObject {
    if b.fixed {
        b
    } else {
        verlet_step(b, accel_x(s, b), accel_y(s, b), dt)
    }
}

/// All bodies integrated against the same pre-update snapshot `s`.
pub open spec fn integrate_all(s: Seq<CelestialObject>, dt: int) -> Seq<CelestialObject> {
    Seq::new(s.len(), |i: int| integrate_one(s, s[i], dt))
}

/// Merge candidates of row `i` among columns `i + 1 .. j`, in column
/// order: the pairs `(i, c)` whose bodies touch in the snapshot `s`.
pub open spec fn cands_row(s: Seq<CelestialObject>, i: int, j: int) -> Seq<(usize, usize)>
    decreases j,
{
    if i < 0 || j <= i + 1 {
        Seq::empty()
    } else {
        cands_row(s, i, j - 1) + if touching(s[i], s[j - 1]) {
            seq![(i as usize, (j - 1) as usize)]
        } else {
            Seq::empty()
        }
    }
}

/// Merge candidates of all rows below `i`, in row-major order.
pub open spec fn cands_upto(s: Seq<CelestialObject>, i: int) -> Seq<(usize, usize)>
    decreases i,
{
    if i <= 0 {
        Seq::empty()
    } else {
        cands_upto(s, i - 1) + cands_row(s, i - 1, s.len() as int)
    }
}

/// Every unordered pair of touching bodies, once, as `(lower, higher)`
/// index pairs in row-major order.
pub open spec fn merge_cands(s: Seq<CelestialObject>) -> Seq<(usize, usize)> {
    cands_upto(s, s.len() as int)
}

/// The body that results from an inelastic merge: total mass, positions
/// at the mass-weighted centroid. If either input is fixed the result is
/// fixed, stationary (previous position equal to the position) and wears
/// the dedicated fixed palette index; otherwise the heavier input (the
/// first, on a tie) passes its palette index on and the previous
/// position is the centroid of the previous positions.
pub open spec fn merge_bodies(b1: CelestialObject, b2: CelestialObject) -> CelestialObject {
    let total = b1.mass + b2.mass;
    let cx = tdiv(b1.mass * b1.x + b2.mass * b2.x, total);
    let cy = tdiv(b1.mass * b1.y + b2.mass * b2.y, total);
    if b1.fixed || b2.fixed {
        CelestialObject {
            x: cx as i64,
            y: cy as i64,
            mass: total as i64,
            prev_x: cx as i64,
            prev_y: cy as i64,
            color: FIXED_COLOR,
            fixed: true,
        }
    } else {
        let pcx = tdiv(b1.mass * b1.prev_x + b2.mass * b2.prev_x, total);
        let pcy = tdiv(b1.mass * b1.prev_y + b2.mass * b2.prev_y, total);
        CelestialObject {
            x: cx as i64,
            y: cy as i64,
            mass: total as i64,
            prev_x: pcx as i64,
            prev_y: pcy as i64,
            color: if b1.mass >= b2.mass {
                b1.color
            } else {
                b2.color
            },
            fixed: false,
        }
    }
}

/// A merge of two acceptable bodies within the mass budget yields an
/// acceptable body carrying the exact sum of the masses, positioned at
/// the truncated mass-weighted centroids.
pub proof fn lemma_merge_bodies_valid(b1: CelestialObject, b2: CelestialObject)
    requires
        valid_body(b1),
        valid_body(b2),
        b1.mass + b2.mass <= MASS_LIMIT,
    ensures
        merge_bodies(b1, b2).mass == b1.mass + b2.mass,
        valid_body(merge_bodies(b1, b2)),
        merge_bodies(b1, b2).x == tdiv(b1.mass * b1.x + b2.mass * b2.x, b1.mass + b2.mass),
        merge_bodies(b1, b2).y == tdiv(b1.mass * b1.y + b2.mass * b2.y, b1.mass + b2.mass),
        merge_bodies(b1, b2).fixed == (b1.fixed || b2.fixed),
        !b1.fixed && !b2.fixed ==> merge_bodies(b1, b2).prev_x == tdiv(
            b1.mass * b1.prev_x + b2.mass * b2.prev_x,
            b1.mass + b2.mass,
        ) && merge_bodies(b1, b2).prev_y == tdiv(
            b1.mass * b1.prev_y + b2.mass * b2.prev_y,
            b1.mass + b2.mass,
        ),
{
    let total = b1.mass + b2.mass;
    assert(-(total * COORD_LIMIT) <= b1.mass * b1.x + b2.mass * b2.x <= total * COORD_LIMIT
        && -(total * COORD_LIMIT) <= b1.mass * b1.y + b2.mass * b2.y <= total * COORD_LIMIT
        && -(total * COORD_LIMIT) <= b1.mass * b1.prev_x + b2.mass * b2.prev_x <= total
        * COORD_LIMIT && -(total * COORD_LIMIT) <= b1.mass * b1.prev_y + b2.mass * b2.prev_y
        <= total * COORD_LIMIT) by (nonlinear_arith)
        requires
            1 <= b1.mass,
            1 <= b2.mass,
            total == b1.mass + b2.mass,
            -COORD_LIMIT <= b1.x <= COORD_LIMIT,
            -COORD_LIMIT <= b1.y <= COORD_LIMIT,
            -COORD_LIMIT <= b1.prev_x <= COORD_LIMIT,
            -COORD_LIMIT <= b1.prev_y <= COORD_LIMIT,
            -COORD_LIMIT <= b2.x <= COORD_LIMIT,
            -COORD_LIMIT <= b2.y <= COORD_LIMIT,
            -COORD_LIMIT <= b2.prev_x <= COORD_LIMIT,
            -COORD_LIMIT <= b2.prev_y <= COORD_LIMIT,
    ;
    lemma_tdiv_bound(b1.mass * b1.x + b2.mass * b2.x, total as int, COORD_LIMIT as int);
    lemma_tdiv_bound(b1.mass * b1.y + b2.mass * b2.y, total as int, COORD_LIMIT as int);
    lemma_tdiv_bound(b1.mass * b1.prev_x + b2.mass * b2.prev_x, total as int, COORD_LIMIT as int);
    lemma_tdiv_bound(b1.mass * b1.prev_y + b2.mass * b2.prev_y, total as int, COORD_LIMIT as int);
}

/// Apply the merge of candidate pair `(i, j)` to the working state: if
/// both slots are still alive, the heavier body's slot (the lower index
/// on a tie) receives the merged body and the other slot is marked dead.
/// A pair with a dead participant is skipped: that body's mass has
/// already been absorbed in this tick.
pub open spec fn merge_step(
    bs: Seq<CelestialObject>,
    dead: Seq<bool>,
    i: int,
    j: int,
) -> (Seq<CelestialObject>, Seq<bool>) {
    if 0 <= i < j < bs.len() && j < dead.len() && !dead[i] && !dead[j] {
        let m = merge_bodies(bs[i], bs[j]);
        if bs[i].mass >= bs[j].mass {
            (bs.update(i, m), dead.update(j, true))
        } else {
            (bs.update(j, m), dead.update(i, true))
        }
    } else {
        (bs, dead)
    }
}

/// Fold `merge_step` over a candidate list, left to right.
pub open spec fn apply_merges(
    bs: Seq<CelestialObject>,
    dead: Seq<bool>,
    ps: Seq<(usize, usize)>,
) -> (Seq<CelestialObject>, Seq<bool>)
    decreases ps.len(),
{
    if ps.len() == 0 {
        (bs, dead)
    } else {
        let st = merge_step(bs, dead, ps[0].0 as int, ps[0].1 as int);
        apply_merges(st.0, st.1, ps.drop_first())
    }
}

/// A deletion mask with nothing marked.
pub open spec fn falses(n: nat) -> Seq<bool> {
    Seq::new(n, |i: int| false)
}

/// The bodies that survive: the sequence with the dead slots removed,
/// order preserved.
pub open spec fn compact(s: Seq<CelestialObject>, dead: Seq<bool>) -> Seq<CelestialObject>
    decreases s.len(),
{
    if s.len() == 0 {
        Seq::empty()
    } else {
        compact(s.drop_last(), dead.drop_last()) + if dead[s.len() - 1] {
            Seq::<CelestialObject>::empty()
        } else {
            seq![s.last()]
        }
    }
}

/// The whole tick: integrate every body against the pre-update snapshot,
/// merge the candidate pairs detected in that same snapshot, and compact.
pub open spec fn tick_result(s: Seq<CelestialObject>, dt: int) -> Seq<CelestialObject> {
    let st = apply_merges(integrate_all(s, dt), falses(s.len()), merge_cands(s));
    compact(st.0, st.1)
}

/// Whether the body `h` currently overlaps any body of the collection.
pub open spec fn hits_any(s: Seq<CelestialObject>, h: CelestialObject) -> bool {
    exists|j: int| 0 <= j < s.len() && touching(h, s[j])
}

/// Way-points recorded after the initial one: starting at step index
/// `t` with `left` sub-steps remaining, the hypothetical body advances
/// one `integrate_one` step at a time under the influence of the
/// unchanging collection `s`, a way-point is recorded on every step
/// whose index is a multiple of `stride`, and the projection stops at
/// the first overlap with a real body.
pub open spec fn traj_rec(
    s: Seq<CelestialObject>,
    h: CelestialObject,
    dt: int,
    t: nat,
    left: nat,
    stride: nat,
) -> Seq<(i64, i64)>
    decreases left,
{
    if left == 0 || hits_any(s, h) {
        Seq::empty()
    } else {
        let h2 = integrate_one(s, h, dt);
        let w: Seq<(i64, i64)> = if t % stride == 0 {
            seq![(h2.x, h2.y)]
        } else {
            Seq::empty()
        };
        w + traj_rec(s, h2, dt, t + 1, (left - 1) as nat, stride)
    }
}

/// The projected trajectory: the hypothetical body's starting position
/// followed by the sampled way-points.
pub open spec fn project_result(
    s: Seq<CelestialObject>,
    h: CelestialObject,
    dt: int,
    steps: nat,
    stride: nat,
) -> Seq<(i64, i64)> {
    seq![(h.x, h.y)] + traj_rec(s, h, dt, 0, steps, stride)
}

/// Mass held in the slots not marked dead.
pub open spec fn alive_mass(s: Seq<CelestialObject>, dead: Seq<bool>) -> int
    decreases s.len(),
{
    if s.len() == 0 {
        0
    } else {
        alive_mass(s.drop_last(), dead.drop_last()) + if dead[s.len() - 1] {
            0
        } else {
            s.last().mass
        }
    }
}

pub proof fn lemma_mass_sum_nonneg(s: Seq<CelestialObject>)
    requires
        all_valid(s),
    ensures
        mass_sum(s) >= 0,
    decreases s.len(),
{
    if s.len() > 0 {
        assert(all_valid(s.drop_last()));
        lemma_mass_sum_nonneg(s.drop_last());
    }
}

pub proof fn lemma_mass_sum_push(s: Seq<CelestialObject>, b: CelestialObject)
    ensures
        mass_sum(s.push(b)) == mass_sum(s) + b.mass,
{
    assert(s.push(b).drop_last() =~= s);
}

pub proof fn lemma_mass_sum_take_succ(s: Seq<CelestialObject>, i: int)
    requires
        0 <= i < s.len(),
    ensures
        mass_sum(s.take(i + 1)) == mass_sum(s.take(i)) + s[i].mass,
{
    assert(s.take(i + 1).drop_last() =~= s.take(i));
}

pub proof fn lemma_mass_sum_take_le(s: Seq<CelestialObject>, i: int)
    requires
        all_valid(s),
        0 <= i <= s.len(),
    ensures
        0 <= mass_sum(s.take(i)) <= mass_sum(s),
    decreases s.len() - i,
{
    assert(all_valid(s.take(i)));
    lemma_mass_sum_nonneg(s.take(i));
    if i == s.len() {
        assert(s.take(i) =~= s);
    } else {
        lemma_mass_sum_take_succ(s, i);
        lemma_mass_sum_take_le(s, i + 1);
    }
}

pub proof fn lemma_mass_sum_remove(s: Seq<CelestialObject>, i: int)
    requires
        0 <= i < s.len(),
    ensures
        mass_sum(s.remove(i)) == mass_sum(s) - s[i].mass,
    decreases s.len(),
{
    if i == s.len() - 1 {
        assert(s.remove(i) =~= s.drop_last());
    } else {
        assert(s.remove(i).drop_last() =~= s.drop_last().remove(i));
        assert(s.remove(i).last() == s.last());
        lemma_mass_sum_remove(s.drop_last(), i);
    }
}

/// With nothing marked dead, the alive mass is the total mass.
pub proof fn lemma_alive_mass_all_false(s: Seq<CelestialObject>, dead: Seq<bool>)
    requires
        dead.len() == s.len(),
        forall|k: int| 0 <= k < dead.len() ==> !dead[k],
    ensures
        alive_mass(s, dead) == mass_sum(s),
    decreases s.len(),
{
    if s.len() > 0 {
        lemma_alive_mass_all_false(s.drop_last(), dead.drop_last());
    }
}

pub proof fn lemma_alive_mass_nonneg(s: Seq<CelestialObject>, dead: Seq<bool>)
    requires
        all_valid(s),
    ensures
        alive_mass(s, dead) >= 0,
    decreases s.len(),
{
    if s.len() > 0 {
        assert(all_valid(s.drop_last()));
        lemma_alive_mass_nonneg(s.drop_last(), dead.drop_last());
    }
}

/// One alive body's mass never exceeds the alive mass.
pub proof fn lemma_alive_mass_one(s: Seq<CelestialObject>, dead: Seq<bool>, i: int)
    requires
        all_valid(s),
        dead.len() == s.len(),
        0 <= i < s.len(),
        !dead[i],
    ensures
        s[i].mass <= alive_mass(s, dead),
    decreases s.len(),
{
    assert(all_valid(s.drop_last()));
    if i == s.len() - 1 {
        lemma_alive_mass_nonneg(s.drop_last(), dead.drop_last());
    } else {
        lemma_alive_mass_one(s.drop_last(), dead.drop_last(), i);
    }
}

/// Marking an alive slot dead removes exactly its mass.
pub proof fn lemma_alive_mass_mark_dead(s: Seq<CelestialObject>, dead: Seq<bool>, i: int)
    requires
        dead.len() == s.len(),
        0 <= i < s.len(),
        !dead[i],
    ensures
        alive_mass(s, dead.update(i, true)) == alive_mass(s, dead) - s[i].mass,
    decreases s.len(),
{
    let n = s.len() as int;
    if i == n - 1 {
        assert(dead.update(i, true).drop_last() =~= dead.drop_last());
    } else {
        assert(dead.update(i, true).drop_last() =~= dead.drop_last().update(i, true));
        lemma_alive_mass_mark_dead(s.drop_last(), dead.drop_last(), i);
    }
}

/// Replacing the body in an alive slot shifts the alive mass by the
/// difference of the masses.
pub proof fn lemma_alive_mass_update_body(
    s: Seq<CelestialObject>,
    dead: Seq<bool>,
    i: int,
    b: CelestialObject,
)
    requires
        dead.len() == s.len(),
        0 <= i < s.len(),
        !dead[i],
    ensures
        alive_mass(s.update(i, b), dead) == alive_mass(s, dead) - s[i].mass + b.mass,
    decreases s.len(),
{
    let n = s.len() as int;
    if i == n - 1 {
        assert(s.update(i, b).drop_last() =~= s.drop_last());
    } else {
        assert(s.update(i, b).drop_last() =~= s.drop_last().update(i, b));
        assert(s.update(i, b).last() == s.last());
        lemma_alive_mass_update_body(s.drop_last(), dead.drop_last(), i, b);
    }
}

/// Two distinct alive bodies together weigh no more than the alive mass.
pub proof fn lemma_alive_mass_two(s: Seq<CelestialObject>, dead: Seq<bool>, i: int, j: int)
    requires
        all_valid(s),
        dead.len() == s.len(),
        0 <= i < s.len(),
        0 <= j < s.len(),
        i != j,
        !dead[i],
        !dead[j],
    ensures
        s[i].mass + s[j].mass <= alive_mass(s, dead),
{
    lemma_alive_mass_mark_dead(s, dead, i);
    lemma_alive_mass_one(s, dead.update(i, true), j);
}

/// Compaction keeps exactly the alive mass.
pub proof fn lemma_compact_mass(s: Seq<CelestialObject>, dead: Seq<bool>)
    requires
        dead.len() == s.len(),
    ensures
        mass_sum(compact(s, dead)) == alive_mass(s, dead),
        compact(s, dead).len() <= s.len(),
    decreases s.len(),
{
    if s.len() > 0 {
        lemma_compact_mass(s.drop_last(), dead.drop_last());
        if dead[s.len() - 1] {
            assert(compact(s, dead) =~= compact(s.drop_last(), dead.drop_last()));
        } else {
            assert(compact(s, dead).drop_last() =~= compact(s.drop_last(), dead.drop_last()));
        }
    }
}

/// Every survivor of compaction is a body of an alive slot.
pub proof fn lemma_compact_valid(s: Seq<CelestialObject>, dead: Seq<bool>)
    requires
        dead.len() == s.len(),
        all_valid(s),
    ensures
        all_valid(compact(s, dead)),
    decreases s.len(),
{
    if s.len() > 0 {
        assert(all_valid(s.drop_last()));
        lemma_compact_valid(s.drop_last(), dead.drop_last());
        let c = compact(s, dead);
        let cd = compact(s.drop_last(), dead.drop_last());
        assert forall|k: int| 0 <= k < c.len() implies valid_body(#[trigger] c[k]) by {
            if k < cd.len() {
                assert(c[k] == cd[k]);
            } else {
                assert(c[k] == s.last());
            }
        }
    }
}

/// An alive slot's body survives compaction.
pub proof fn lemma_compact_contains(s: Seq<CelestialObject>, dead: Seq<bool>, i: int)
    requires
        dead.len() == s.len(),
        0 <= i < s.len(),
        !dead[i],
    ensures
        compact(s, dead).contains(s[i]),
    decreases s.len(),
{
    let c = compact(s, dead);
    let cd = compact(s.drop_last(), dead.drop_last());
    if i == s.len() - 1 {
        assert(c[c.len() - 1] == s[i]);
    } else {
        lemma_compact_contains(s.drop_last(), dead.drop_last(), i);
        let k = choose|k: int| 0 <= k < cd.len() && cd[k] == s.drop_last()[i];
        assert(c[k] == cd[k]);
    }
}

/// Sequences with the same masses slot by slot have the same total.
pub proof fn lemma_mass_sum_congruent(s1: Seq<CelestialObject>, s2: Seq<CelestialObject>)
    requires
        s1.len() == s2.len(),
        forall|k: int| 0 <= k < s1.len() ==> s1[k].mass == #[trigger] s2[k].mass,
    ensures
        mass_sum(s1) == mass_sum(s2),
    decreases s1.len(),
{
    if s1.len() > 0 {
        lemma_mass_sum_congruent(s1.drop_last(), s2.drop_last());
    }
}

/// Reasons the engine rejects a body at the insertion boundary, checked
/// in this order: non-positive mass; a coordinate outside the domain;
/// the mass budget would be exceeded.
pub open spec fn insert_error(s: Seq<CelestialObject>, b: CelestialObject) -> Option<SimError> {
    if b.mass <= 0 {
        Some(SimError::NonPositiveMass)
    } else if !(-COORD_LIMIT <= b.x <= COORD_LIMIT) || !(-COORD_LIMIT <= b.y <= COORD_LIMIT)
        || !(-COORD_LIMIT <= b.prev_x <= COORD_LIMIT) || !(-COORD_LIMIT <= b.prev_y
        <= COORD_LIMIT) {
        Some(SimError::OutOfBounds)
    } else if mass_sum(s) + b.mass > MASS_LIMIT {
        Some(SimError::MassBudgetExceeded)
    } else {
        None
    }
}

/// The first rejection among the first `k` bodies of `s`, each checked
/// against the bodies before it.
pub open spec fn seq_error(s: Seq<CelestialObject>, k: int) -> Option<SimError>
    decreases k,
{
    if k <= 0 {
        None
    } else {
        let e = seq_error(s, k - 1);
        if e is Some {
            e
        } else {
            insert_error(s.take(k - 1), s[k - 1])
        }
    }
}

/// A rejection among the first `k` bodies stands for the whole sequence.
pub proof fn lemma_seq_error_persists(s: Seq<CelestialObject>, k: int, m: int)
    requires
        0 <= k <= m,
        seq_error(s, k) is Some,
    ensures
        seq_error(s, m) == seq_error(s, k),
    decreases m - k,
{
    if m > k {
        lemma_seq_error_persists(s, k, m - 1);
    }
}

/// One pass over the collection: the clamped net force it exerts on
/// `b`, and whether `b` overlaps any of its bodies.
fn net_force_and_hit(bodies: &Vec<CelestialObject>, b: &CelestialObject) -> (r: (i128, i128, bool))
    requires
        all_valid(bodies@),
        valid_body(*b),
    ensures
        r.0 == net_fx(bodies@, *b, bodies@.len() as int),
        r.1 == net_fy(bodies@, *b, bodies@.len() as int),
        r.2 == hits_any(bodies@, *b),
        -FORCE_CLAMP <= r.0 <= FORCE_CLAMP,
        -FORCE_CLAMP <= r.1 <= FORCE_CLAMP,
{
    let ghost s = bodies@;
    let rb = mass_to_radius(b.mass);
    let hb = *b;
    let mut fx: i128 = 0;
    let mut fy: i128 = 0;
    let mut hit = false;
    let mut j: usize = 0;
    while j < bodies.len()
        invariant
            s == bodies@,
            all_valid(s),
            valid_body(hb),
            hb == *b,
            j <= s.len(),
            rb == radius_of(hb.mass as int),
            RADIUS_PAD <= rb <= 102_000_000,
            fx == net_fx(s, hb, j as int),
            fy == net_fy(s, hb, j as int),
            -FORCE_CLAMP <= fx <= FORCE_CLAMP,
            -FORCE_CLAMP <= fy <= FORCE_CLAMP,
            hit == exists|q: int| 0 <= q < j && touching(hb, s[q]),
        decreases s.len() - j,
    {
        let bj = bodies[j];
        proof {
            lemma_dist2_nonneg(hb, bj);
            assert(0 <= ((bj.x as i128) - (hb.x as i128)) * ((bj.x as i128) - (hb.x as i128))
                <= 400_000_000_000_000_000_000 && 0 <= ((bj.y as i128) - (hb.y as i128)) * ((bj.y
                as i128) - (hb.y as i128)) <= 400_000_000_000_000_000_000) by (nonlinear_arith)
                requires
                    -20_000_000_000 <= (bj.x as i128) - (hb.x as i128) <= 20_000_000_000,
                    -20_000_000_000 <= (bj.y as i128) - (hb.y as i128) <= 20_000_000_000,
            ;
        }
        let dx: i128 = (bj.x as i128) - (hb.x as i128);
        let dy: i128 = (bj.y as i128) - (hb.y as i128);
        let d2: i128 = dx * dx + dy * dy;
        let d: u128 = isqrt(d2 as u128);
        let rj = mass_to_radius(bj.mass);
        if d <= ((rb + rj) as u128) {
            hit = true;
            proof {
                assert(touching(hb, s[j as int]));
            }
        } else {
            proof {
                assert(!touching(hb, s[j as int]));
            }
        }
        if d2 != 0 {
            let f = hb.calculate_force(&bj);
            fx = clamp_i128(fx + f.0, FORCE_CLAMP);
            fy = clamp_i128(fy + f.1, FORCE_CLAMP);
        }
        j = j + 1;
    }
    (fx, fy, hit)
}

/// The inelastic merge of two bodies, as `merge_bodies` describes.
fn merge_pair(b1: &CelestialObject, b2: &CelestialObject) -> (m: CelestialObject)
    requires
        valid_body(*b1),
        valid_body(*b2),
        b1.mass + b2.mass <= MASS_LIMIT,
    ensures
        m == merge_bodies(*b1, *b2),
        valid_body(m),
{
    let total: i64 = b1.mass + b2.mass;
    proof {
        assert(-100_000_000_000_000_000_000 <= (b1.mass as i128) * (b1.x as i128)
            <= 100_000_000_000_000_000_000 && -100_000_000_000_000_000_000 <= (b1.mass as i128)
            * (b1.y as i128) <= 100_000_000_000_000_000_000 && -100_000_000_000_000_000_000
            <= (b1.mass as i128) * (b1.prev_x as i128) <= 100_000_000_000_000_000_000
            && -100_000_000_000_000_000_000 <= (b1.mass as i128) * (b1.prev_y as i128)
            <= 100_000_000_000_000_000_000 && -100_000_000_000_000_000_000 <= (b2.mass as i128)
            * (b2.x as i128) <= 100_000_000_000_000_000_000 && -100_000_000_000_000_000_000
            <= (b2.mass as i128) * (b2.y as i128) <= 100_000_000_000_000_000_000
            && -100_000_000_000_000_000_000 <= (b2.mass as i128) * (b2.prev_x as i128)
            <= 100_000_000_000_000_000_000 && -100_000_000_000_000_000_000 <= (b2.mass as i128)
            * (b2.prev_y as i128) <= 100_000_000_000_000_000_000
            && -((total as i128) * (COORD_LIMIT as i128)) <= (b1.mass as i128) * (b1.x as i128)
            + (b2.mass as i128) * (b2.x as i128) <= (total as i128) * (COORD_LIMIT as i128)
            && -((total as i128) * (COORD_LIMIT as i128)) <= (b1.mass as i128) * (b1.y as i128)
            + (b2.mass as i128) * (b2.y as i128) <= (total as i128) * (COORD_LIMIT as i128)
            && -((total as i128) * (COORD_LIMIT as i128)) <= (b1.mass as i128) * (b1.prev_x
            as i128) + (b2.mass as i128) * (b2.prev_x as i128) <= (total as i128) * (COORD_LIMIT
            as i128) && -((total as i128) * (COORD_LIMIT as i128)) <= (b1.mass as i128)
            * (b1.prev_y as i128) + (b2.mass as i128) * (b2.prev_y as i128) <= (total as i128)
            * (COORD_LIMIT as i128) && (total as i128) * (COORD_LIMIT as i128)
            <= 100_000_000_000_000_000_000_000) by (nonlinear_arith)
            requires
                1 <= b1.mass <= 10_000_000_000,
                1 <= b2.mass <= 10_000_000_000,
                total == b1.mass + b2.mass,
                total <= 10_000_000_000,
                COORD_LIMIT == 10_000_000_000i64,
                -COORD_LIMIT <= b1.x <= COORD_LIMIT,
                -COORD_LIMIT <= b1.y <= COORD_LIMIT,
                -COORD_LIMIT <= b1.prev_x <= COORD_LIMIT,
                -COORD_LIMIT <= b1.prev_y <= COORD_LIMIT,
                -COORD_LIMIT <= b2.x <= COORD_LIMIT,
                -COORD_LIMIT <= b2.y <= COORD_LIMIT,
                -COORD_LIMIT <= b2.prev_x <= COORD_LIMIT,
                -COORD_LIMIT <= b2.prev_y <= COORD_LIMIT,
        ;
        lemma_tdiv_bound(
            ((b1.mass as i128) * (b1.x as i128) + (b2.mass as i128) * (b2.x as i128)) as int,
            total as int,
            COORD_LIMIT as int,
        );
    }
    let cx = div_trunc(
        (b1.mass as i128) * (b1.x as i128) + (b2.mass as i128) * (b2.x as i128),
        total as i128,
    );
    let cy = div_trunc(
        (b1.mass as i128) * (b1.y as i128) + (b2.mass as i128) * (b2.y as i128),
        total as i128,
    );
    proof {
        lemma_tdiv_bound(
            ((b1.mass as i128) * (b1.y as i128) + (b2.mass as i128) * (b2.y as i128)) as int,
            total as int,
            COORD_LIMIT as int,
        );
    }
    if b1.fixed || b2.fixed {
        CelestialObject {
            x: cx as i64,
            y: cy as i64,
            mass: total,
            prev_x: cx as i64,
            prev_y: cy as i64,
            color: FIXED_COLOR,
            fixed: true,
        }
    } else {
        let pcx = div_trunc(
            (b1.mass as i128) * (b1.prev_x as i128) + (b2.mass as i128) * (b2.prev_x as i128),
            total as i128,
        );
        let pcy = div_trunc(
            (b1.mass as i128) * (b1.prev_y as i128) + (b2.mass as i128) * (b2.prev_y as i128),
            total as i128,
        );
        proof {
            lemma_tdiv_bound(
                ((b1.mass as i128) * (b1.prev_x as i128) + (b2.mass as i128) * (b2.prev_x
                    as i128)) as int,
                total as int,
                COORD_LIMIT as int,
            );
            lemma_tdiv_bound(
                ((b1.mass as i128) * (b1.prev_y as i128) + (b2.mass as i128) * (b2.prev_y
                    as i128)) as int,
                total as int,
                COORD_LIMIT as int,
            );
        }
        CelestialObject {
            x: cx as i64,
            y: cy as i64,
            mass: total,
            prev_x: pcx as i64,
            prev_y: pcy as i64,
            color: if b1.mass >= b2.mass {
                b1.color
            } else {
                b2.color
            },
            fixed: false,
        }
    }
}

/// Why the engine rejected an input.
#[derive(Clone, Copy, PartialEq, Eq, Structural, Debug)]
pub enum SimError {
    /// A body's mass was zero or negative.
    NonPositiveMass,
    /// A body's coordinate lay outside the coordinate domain.
    OutOfBounds,
    /// Accepting the body would push the total mass over the budget.
    MassBudgetExceeded,
    /// The time step was not in `1 ..= DT_LIMIT`.
    InvalidTimeStep,
}

/// The simulation engine: the sole owner of the body collection.
pub struct Simulation {
    bodies: Vec<CelestialObject>,
    dt: i64,
}

impl View for Simulation {
    type V = Seq<CelestialObject>;

    closed spec fn view(&self) -> Seq<CelestialObject> {
        self.bodies@
    }
}

impl Simulation {
    /// Every body is valid, the mass budget holds, and the time step is
    /// in range.
    #[verifier::type_invariant]
    spec fn wf(self) -> bool {
        &&& all_valid(self.bodies@)
        &&& mass_sum(self.bodies@) <= MASS_LIMIT
        &&& 1 <= self.dt <= DT_LIMIT
    }

    /// The time step the engine advances by on each tick.
    pub closed spec fn time_step(self) -> i64 {
        self.dt
    }

    /// Build an engine over an initial collection, validating the time
    /// step and then each body in order as `insert` would.
    pub fn new(bodies: Vec<CelestialObject>, dt: i64) -> (r: Result<Simulation, SimError>)
        ensures
            match r {
                Ok(sim) => {
                    &&& 1 <= dt <= DT_LIMIT
                    &&& seq_error(bodies@, bodies@.len() as int) is None
                    &&& sim@ == bodies@
                    &&& sim.time_step() == dt
                },
                Err(e) => {
                    if !(1 <= dt <= DT_LIMIT) {
                        e == SimError::InvalidTimeStep
                    } else {
                        Some(e) == seq_error(bodies@, bodies@.len() as int)
                    }
                },
            },
    {
        if dt < 1 || dt > DT_LIMIT {
            return Err(SimError::InvalidTimeStep);
        }
        let mut sim = Simulation { bodies: Vec::new(), dt };
        let mut i: usize = 0;
        while i < bodies.len()
            invariant
                1 <= dt <= DT_LIMIT,
                i <= bodies@.len(),
                sim@ == bodies@.take(i as int),
                sim.time_step() == dt,
                seq_error(bodies@, i as int) is None,
            decreases bodies@.len() - i,
        {
            match sim.insert(bodies[i]) {
                Ok(()) => {},
                Err(e) => {
                    proof {
                        assert(seq_error(bodies@, i + 1) == Some(e));
                        lemma_seq_error_persists(bodies@, i + 1, bodies@.len() as int);
                    }
                    return Err(e);
                },
            }
            proof {
                assert(bodies@.take(i + 1).drop_last() =~= bodies@.take(i as int));
                assert(sim@ =~= bodies@.take(i + 1));
            }
            i = i + 1;
        }
        proof {
            assert(bodies@.take(bodies@.len() as int) =~= bodies@);
        }
        Ok(sim)
    }

    /// Total mass currently held in the collection.
    pub fn total_mass(&self) -> (t: i64)
        ensures
            t == mass_sum(self@),
            0 <= t <= MASS_LIMIT,
    {
        proof {
            use_type_invariant(self);
        }
        let mut t: i64 = 0;
        let mut i: usize = 0;
        while i < self.bodies.len()
            invariant
                all_valid(self.bodies@),
                mass_sum(self.bodies@) <= MASS_LIMIT,
                i <= self.bodies@.len(),
                t == mass_sum(self.bodies@.take(i as int)),
            decreases self.bodies@.len() - i,
        {
            proof {
                lemma_mass_sum_take_succ(self.bodies@, i as int);
                lemma_mass_sum_take_le(self.bodies@, i + 1);
            }
            t = t + self.bodies[i].mass;
            i = i + 1;
        }
        proof {
            assert(self.bodies@.take(self.bodies@.len() as int) =~= self.bodies@);
            lemma_mass_sum_take_le(self.bodies@, self.bodies@.len() as int);
        }
        t
    }

    /// Append a body, validating it first; on rejection the collection
    /// is unchanged and the error says why.
    pub fn insert(&mut self, body: CelestialObject) -> (r: Result<(), SimError>)
        ensures
            final(self).time_step() == old(self).time_step(),
            match r {
                Ok(()) => {
                    &&& insert_error(old(self)@, body) is None
                    &&& final(self)@ == old(self)@.push(body)
                },
                Err(e) => {
                    &&& Some(e) == insert_error(old(self)@, body)
                    &&& final(self)@ == old(self)@
                },
            },
    {
        proof {
            use_type_invariant(&*self);
        }
        if body.mass <= 0 {
            return Err(SimError::NonPositiveMass);
        }
        if body.x < -COORD_LIMIT || body.x > COORD_LIMIT || body.y < -COORD_LIMIT || body.y
            > COORD_LIMIT || body.prev_x < -COORD_LIMIT || body.prev_x > COORD_LIMIT
            || body.prev_y < -COORD_LIMIT || body.prev_y > COORD_LIMIT {
            return Err(SimError::OutOfBounds);
        }
        let total = self.total_mass();
        if body.mass > MASS_LIMIT - total {
            return Err(SimError::MassBudgetExceeded);
        }
        let ghost s0 = self.bodies@;
        let mut bs: Vec<CelestialObject> = Vec::new();
        std::mem::swap(&mut bs, &mut self.bodies);
        bs.push(body);
        proof {
            lemma_mass_sum_push(s0, body);
            assert(all_valid(s0.push(body))) by {
                assert forall|k: int| 0 <= k < s0.push(body).len() implies valid_body(
                    #[trigger] s0.push(body)[k],
                ) by {
                    if k < s0.len() {
                        assert(s0.push(body)[k] == s0[k]);
                    }
                }
            }
        }
        self.bodies = bs;
        Ok(())
    }

    /// Remove the body at `index`. Picking an index in range is the
    /// caller's obligation: an out-of-range index is a programming
    /// error, not a runtime input.
    pub fn remove(&mut self, index: usize)
        requires
            index < old(self)@.len(),
        ensures
            final(self)@ == old(self)@.remove(index as int),
            final(self).time_step() == old(self).time_step(),
    {
        proof {
            use_type_invariant(&*self);
        }
        let ghost s0 = self.bodies@;
        let mut bs: Vec<CelestialObject> = Vec::new();
        std::mem::swap(&mut bs, &mut self.bodies);
        bs.remove(index);
        proof {
            lemma_mass_sum_remove(s0, index as int);
            lemma_mass_sum_nonneg(s0.remove(index as int));
            assert(all_valid(s0.remove(index as int))) by {
                assert forall|k: int| 0 <= k < s0.remove(index as int).len() implies valid_body(
                    #[trigger] s0.remove(index as int)[k],
                ) by {
                    if k < index {
                        assert(s0.remove(index as int)[k] == s0[k]);
                    } else {
                        assert(s0.remove(index as int)[k] == s0[k + 1]);
                    }
                }
            }
        }
        self.bodies = bs;
    }

    /// Advance the simulation one tick. Forces and merge candidates are
    /// read from the pre-update snapshot; every body is then integrated,
    /// candidate pairs are merged in row-major order (a pair with an
    /// already-absorbed participant is skipped, so chains of three or
    /// more mutually touching bodies collapse sequentially and total
    /// mass is conserved exactly), and dead slots are compacted away.
    pub fn update(&mut self)
        ensures
            final(self)@ == tick_result(old(self)@, old(self).time_step() as int),
            final(self).time_step() == old(self).time_step(),
    {
        proof {
            use_type_invariant(&*self);
        }
        let ghost s = self.bodies@;
        let dt = self.dt;
        let mut bs: Vec<CelestialObject> = Vec::new();
        std::mem::swap(&mut bs, &mut self.bodies);
        let n = bs.len();

        // Forces, accelerations and merge candidates from the snapshot.
        let mut accs: Vec<(i64, i64)> = Vec::new();
        let mut merges: Vec<(usize, usize)> = Vec::new();
        let mut i: usize = 0;
        while i < n
            invariant
                n == s.len(),
                bs@ == s,
                all_valid(s),
                i <= n,
                accs@.len() == i,
                forall|k: int|
                    0 <= k < i ==> (#[trigger] accs@[k]).0 == accel_x(s, s[k]) && accs@[k].1
                        == accel_y(s, s[k]),
                merges@ == cands_upto(s, i as int),
                forall|q: int|
                    0 <= q < merges@.len() ==> 0 <= (#[trigger] merges@[q]).0 < merges@[q].1 < n,
            decreases n - i,
        {
            let bi = bs[i];
            let ri = mass_to_radius(bi.mass);
            let mut fx: i128 = 0;
            let mut fy: i128 = 0;
            let mut j: usize = 0;
            proof {
                assert(merges@ =~= cands_upto(s, i as int) + cands_row(s, i as int, 0));
            }
            while j < n
                invariant
                    n == s.len(),
                    bs@ == s,
                    all_valid(s),
                    i < n,
                    j <= n,
                    bi == s[i as int],
                    ri == radius_of(s[i as int].mass as int),
                    RADIUS_PAD <= ri <= 102_000_000,
                    fx == net_fx(s, bi, j as int),
                    fy == net_fy(s, bi, j as int),
                    -FORCE_CLAMP <= fx <= FORCE_CLAMP,
                    -FORCE_CLAMP <= fy <= FORCE_CLAMP,
                    merges@ == cands_upto(s, i as int) + cands_row(s, i as int, j as int),
                    forall|q: int|
                        0 <= q < merges@.len() ==> 0 <= (#[trigger] merges@[q]).0 < merges@[q].1
                            < n,
                decreases n - j,
            {
                let bj = bs[j];
                proof {
                    lemma_dist2_nonneg(bi, bj);
                    assert(0 <= ((bj.x as i128) - (bi.x as i128)) * ((bj.x as i128) - (bi.x
                        as i128)) <= 400_000_000_000_000_000_000 && 0 <= ((bj.y as i128) - (bi.y
                        as i128)) * ((bj.y as i128) - (bi.y as i128))
                        <= 400_000_000_000_000_000_000) by (nonlinear_arith)
                        requires
                            -20_000_000_000 <= (bj.x as i128) - (bi.x as i128) <= 20_000_000_000,
                            -20_000_000_000 <= (bj.y as i128) - (bi.y as i128) <= 20_000_000_000,
                    ;
                }
                let dx: i128 = (bj.x as i128) - (bi.x as i128);
                let dy: i128 = (bj.y as i128) - (bi.y as i128);
                let d2: i128 = dx * dx + dy * dy;
                let d: u128 = isqrt(d2 as u128);
                if j > i {
                    let rj = mass_to_radius(bj.mass);
                    if d <= ((ri + rj) as u128) {
                        merges.push((i, j));
                        proof {
                            assert(merges@ =~= cands_upto(s, i as int) + cands_row(
                                s,
                                i as int,
                                j + 1,
                            ));
                        }
                    } else {
                        proof {
                            assert(merges@ =~= cands_upto(s, i as int) + cands_row(
                                s,
                                i as int,
                                j + 1,
                            ));
                        }
                    }
                } else {
                    proof {
                        assert(cands_row(s, i as int, j + 1) == cands_row(s, i as int, j as int));
                    }
                }
                if d2 != 0 {
                    let f = bi.calculate_force(&bj);
                    fx = clamp_i128(fx + f.0, FORCE_CLAMP);
                    fy = clamp_i128(fy + f.1, FORCE_CLAMP);
                }
                j = j + 1;
            }
            let acc: (i64, i64) = if bi.fixed {
                (0i64, 0i64)
            } else {
                proof {
                    assert(-1_000_000_000_000_000_000_000_000_000_000_000_000 <= fx * (SCALE
                        as i128) <= 1_000_000_000_000_000_000_000_000_000_000_000_000
                        && -1_000_000_000_000_000_000_000_000_000_000_000_000 <= fy * (SCALE
                        as i128) <= 1_000_000_000_000_000_000_000_000_000_000_000_000)
                        by (nonlinear_arith)
                        requires
                            -FORCE_CLAMP <= fx <= FORCE_CLAMP,
                            -FORCE_CLAMP <= fy <= FORCE_CLAMP,
                            FORCE_CLAMP == 1_000_000_000_000_000_000_000_000_000_000i128,
                            SCALE as i128 == 1_000_000,
                    ;
                }
                let ax = clamp_i128(
                    div_trunc(fx * (SCALE as i128), bi.mass as i128),
                    ACCEL_LIMIT as i128,
                ) as i64;
                let ay = clamp_i128(
                    div_trunc(fy * (SCALE as i128), bi.mass as i128),
                    ACCEL_LIMIT as i128,
                ) as i64;
                (ax, ay)
            };
            accs.push(acc);
            proof {
                assert(accs@[i as int].0 == accel_x(s, s[i as int]) && accs@[i as int].1
                    == accel_y(s, s[i as int]));
            }
            i = i + 1;
        }

        // Integrate every body against the snapshot.
        i = 0;
        while i < n
            invariant
                n == s.len(),
                all_valid(s),
                1 <= dt <= DT_LIMIT,
                accs@.len() == n,
                forall|k: int|
                    0 <= k < n ==> (#[trigger] accs@[k]).0 == accel_x(s, s[k]) && accs@[k].1
                        == accel_y(s, s[k]),
                i <= n,
                bs@.len() == n,
                forall|k: int| 0 <= k < i ==> bs@[k] == integrate_all(s, dt as int)[k],
                forall|k: int| i <= k < n ==> bs@[k] == s[k],
                forall|k: int| 0 <= k < n ==> valid_body(#[trigger] bs@[k]),
            decreases n - i,
        {
            if !bs[i].fixed {
                let mut b = bs[i];
                let acc = accs[i];
                proof {
                    assert(-ACCEL_LIMIT <= accel_x(s, s[i as int]) <= ACCEL_LIMIT);
                    assert(-ACCEL_LIMIT <= accel_y(s, s[i as int]) <= ACCEL_LIMIT);
                }
                b.update_fields_from_force(acc, dt);
                bs[i] = b;
            }
            i = i + 1;
        }
        proof {
            assert(bs@ =~= integrate_all(s, dt as int));
            lemma_mass_sum_congruent(integrate_all(s, dt as int), s);
        }

        // Merge the candidate pairs in order.
        let mut dead: Vec<bool> = Vec::new();
        let mut c: usize = 0;
        while c < n
            invariant
                c <= n,
                dead@.len() == c,
                forall|k: int| 0 <= k < c ==> !(#[trigger] dead@[k]),
            decreases n - c,
        {
            dead.push(false);
            c = c + 1;
        }
        proof {
            assert(dead@ =~= falses(n as nat));
            lemma_alive_mass_all_false(bs@, dead@);
            assert(merge_cands(s).skip(0) =~= merge_cands(s));
        }
        let mut t: usize = 0;
        while t < merges.len()
            invariant
                n == s.len(),
                merges@ == merge_cands(s),
                forall|q: int|
                    0 <= q < merges@.len() ==> 0 <= (#[trigger] merges@[q]).0 < merges@[q].1 < n,
                t <= merges@.len(),
                bs@.len() == n,
                dead@.len() == n,
                all_valid(bs@),
                mass_sum(s) <= MASS_LIMIT,
                alive_mass(bs@, dead@) == mass_sum(s),
                apply_merges(integrate_all(s, dt as int), falses(n as nat), merge_cands(s))
                    == apply_merges(bs@, dead@, merge_cands(s).skip(t as int)),
            decreases merges@.len() - t,
        {
            let p = merges[t];
            let pi = p.0;
            let pj = p.1;
            let ghost pre_bs = bs@;
            let ghost pre_dead = dead@;
            proof {
                assert(merges@[t as int] == p);
                assert(merge_cands(s).skip(t as int)[0] == p);
                assert(merge_cands(s).skip(t as int).drop_first() =~= merge_cands(s).skip(
                    t + 1,
                ));
            }
            if !dead[pi] && !dead[pj] {
                let b1 = bs[pi];
                let b2 = bs[pj];
                proof {
                    lemma_alive_mass_two(bs@, dead@, pi as int, pj as int);
                }
                let m = merge_pair(&b1, &b2);
                if b1.mass >= b2.mass {
                    bs[pi] = m;
                    dead[pj] = true;
                    proof {
                        lemma_alive_mass_update_body(pre_bs, pre_dead, pi as int, m);
                        lemma_alive_mass_mark_dead(bs@, pre_dead, pj as int);
                    }
                } else {
                    bs[pj] = m;
                    dead[pi] = true;
                    proof {
                        lemma_alive_mass_update_body(pre_bs, pre_dead, pj as int, m);
                        lemma_alive_mass_mark_dead(bs@, pre_dead, pi as int);
                    }
                }
                proof {
                    assert(all_valid(bs@)) by {
                        assert forall|k: int| 0 <= k < bs@.len() implies valid_body(
                            #[trigger] bs@[k],
                        ) by {
                            if bs@[k] != m {
                                assert(bs@[k] == pre_bs[k]);
                            }
                        }
                    }
                    assert((bs@, dead@) == merge_step(pre_bs, pre_dead, pi as int, pj as int));
                }
            } else {
                proof {
                    assert((bs@, dead@) == merge_step(pre_bs, pre_dead, pi as int, pj as int));
                }
            }
            t = t + 1;
        }
        proof {
            assert(merge_cands(s).skip(merges@.len() as int) =~= Seq::<(usize, usize)>::empty());
        }

        // Compact the dead slots away.
        let mut out: Vec<CelestialObject> = Vec::new();
        c = 0;
        while c < n
            invariant
                c <= n,
                bs@.len() == n,
                dead@.len() == n,
                out@ == compact(bs@.take(c as int), dead@.take(c as int)),
            decreases n - c,
        {
            proof {
                assert(bs@.take(c + 1).drop_last() =~= bs@.take(c as int));
                assert(dead@.take(c + 1).drop_last() =~= dead@.take(c as int));
            }
            if !dead[c] {
                out.push(bs[c]);
                proof {
                    assert(out@ =~= compact(bs@.take(c + 1), dead@.take(c + 1)));
                }
            } else {
                proof {
                    assert(out@ =~= compact(bs@.take(c + 1), dead@.take(c + 1)));
                }
            }
            c = c + 1;
        }
        proof {
            assert(bs@.take(n as int) =~= bs@);
            assert(dead@.take(n as int) =~= dead@);
            lemma_compact_mass(bs@, dead@);
            lemma_compact_valid(bs@, dead@);
        }
        self.bodies = out;
    }

    /// Project the path of a hypothetical body under the gravity of the
    /// real collection, which is read but never changed (the coupling is
    /// one-way: the real bodies do not feel the projected one). The
    /// result always starts with the body's current position; the
    /// projection then runs for at most `step_count` sub-steps of the
    /// engine's time step, records a way-point every `sample_stride`
    /// sub-steps, and stops early as soon as the body overlaps a real
    /// one. With `step_count == 0`, or a body that already overlaps,
    /// only the starting position is returned.
    pub fn calculate_trajectory(
        &self,
        proposed: &CelestialObject,
        step_count: usize,
        sample_stride: usize,
    ) -> (t: Vec<(i64, i64)>)
        requires
            valid_body(*proposed),
            sample_stride >= 1,
        ensures
            t@ == project_result(
                self@,
                *proposed,
                self.time_step() as int,
                step_count as nat,
                sample_stride as nat,
            ),
            t@.len() >= 1,
            t@[0] == (proposed.x, proposed.y),
            step_count == 0 ==> t@.len() == 1,
            hits_any(self@, *proposed) ==> t@.len() == 1,
    {
        proof {
            use_type_invariant(self);
        }
        let ghost s = self@;
        let dt = self.dt;
        let mut out: Vec<(i64, i64)> = Vec::new();
        out.push((proposed.x, proposed.y));
        let mut cur: CelestialObject = *proposed;
        let mut t: usize = 0;
        while t < step_count
            invariant_except_break
                s == self.bodies@,
                all_valid(s),
                1 <= dt <= DT_LIMIT,
                sample_stride >= 1,
                valid_body(cur),
                t <= step_count,
                out@.len() >= 1,
                out@[0] == (proposed.x, proposed.y),
                project_result(s, *proposed, dt as int, step_count as nat, sample_stride as nat)
                    == out@ + traj_rec(
                    s,
                    cur,
                    dt as int,
                    t as nat,
                    (step_count - t) as nat,
                    sample_stride as nat,
                ),
            ensures
                out@ == project_result(
                    s,
                    *proposed,
                    dt as int,
                    step_count as nat,
                    sample_stride as nat,
                ),
                out@.len() >= 1,
                out@[0] == (proposed.x, proposed.y),
            decreases step_count - t,
        {
            let r = net_force_and_hit(&self.bodies, &cur);
            if r.2 {
                proof {
                    assert(traj_rec(
                        s,
                        cur,
                        dt as int,
                        t as nat,
                        (step_count - t) as nat,
                        sample_stride as nat,
                    ) =~= Seq::<(i64, i64)>::empty());
                    assert(out@ + Seq::<(i64, i64)>::empty() =~= out@);
                }
                break;
            }
            let ghost pre = cur;
            if !cur.fixed {
                proof {
                    assert(-1_000_000_000_000_000_000_000_000_000_000_000_000 <= r.0 * (SCALE
                        as i128) <= 1_000_000_000_000_000_000_000_000_000_000_000_000
                        && -1_000_000_000_000_000_000_000_000_000_000_000_000 <= r.1 * (SCALE
                        as i128) <= 1_000_000_000_000_000_000_000_000_000_000_000_000)
                        by (nonlinear_arith)
                        requires
                            -FORCE_CLAMP <= r.0 <= FORCE_CLAMP,
                            -FORCE_CLAMP <= r.1 <= FORCE_CLAMP,
                            FORCE_CLAMP == 1_000_000_000_000_000_000_000_000_000_000i128,
                            SCALE as i128 == 1_000_000,
                    ;
                }
                let ax = clamp_i128(
                    div_trunc(r.0 * (SCALE as i128), cur.mass as i128),
                    ACCEL_LIMIT as i128,
                ) as i64;
                let ay = clamp_i128(
                    div_trunc(r.1 * (SCALE as i128), cur.mass as i128),
                    ACCEL_LIMIT as i128,
                ) as i64;
                cur.update_fields_from_force((ax, ay), dt);
            }
            proof {
                assert(cur == integrate_one(s, pre, dt as int));
                assert(traj_rec(
                    s,
                    pre,
                    dt as int,
                    t as nat,
                    (step_count - t) as nat,
                    sample_stride as nat,
                ) == (if t as nat % sample_stride as nat == 0 {
                    seq![(cur.x, cur.y)]
                } else {
                    Seq::<(i64, i64)>::empty()
                }) + traj_rec(
                    s,
                    cur,
                    dt as int,
                    t as nat + 1,
                    (step_count - t - 1) as nat,
                    sample_stride as nat,
                ));
            }
            let ghost out_pre = out@;
            if t % sample_stride == 0 {
                out.push((cur.x, cur.y));
                proof {
                    assert(out@ =~= out_pre + seq![(cur.x, cur.y)]);
                    assert(out_pre + (seq![(cur.x, cur.y)] + traj_rec(
                        s,
                        cur,
                        dt as int,
                        t as nat + 1,
                        (step_count - t - 1) as nat,
                        sample_stride as nat,
                    )) =~= out@ + traj_rec(
                        s,
                        cur,
                        dt as int,
                        t as nat + 1,
                        (step_count - t - 1) as nat,
                        sample_stride as nat,
                    ));
                }
            } else {
                proof {
                    assert(out_pre + (Seq::<(i64, i64)>::empty() + traj_rec(
                        s,
                        cur,
                        dt as int,
                        t as nat + 1,
                        (step_count - t - 1) as nat,
                        sample_stride as nat,
                    )) =~= out@ + traj_rec(
                        s,
                        cur,
                        dt as int,
                        t as nat + 1,
                        (step_count - t - 1) as nat,
                        sample_stride as nat,
                    ));
                }
            }
            t = t + 1;
        }
        proof {
            assert(out@[0] == (proposed.x, proposed.y));
            if step_count == 0 || hits_any(s, *proposed) {
                assert(traj_rec(
                    s,
                    *proposed,
                    dt as int,
                    0,
                    step_count as nat,
                    sample_stride as nat,
                ) =~= Seq::<(i64, i64)>::empty());
                assert(out@ =~= seq![(proposed.x, proposed.y)]);
            }
        }
        out
    }

    /// Read-only view of the collection, for rendering. Its contract
    /// also publishes what the engine guarantees of every reachable
    /// state.
    pub fn bodies(&self) -> (r: &Vec<CelestialObject>)
        ensures
            r@ == self@,
            all_valid(self@),
            mass_sum(self@) <= MASS_LIMIT,
            1 <= self.time_step() <= DT_LIMIT,
    {
        proof {
            use_type_invariant(self);
        }
        &self.bodies
    }
}

} // verus!
