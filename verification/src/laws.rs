//! Global properties of the simulation, stated and proved once over the
//! specification functions that the engine's contracts use: Newton's
//! third law of the force model, the symmetric displacement of an
//! equal-mass pair, exact conservation of mass across a tick, the
//! centroid law of merging, and the immobility of fixed bodies.

use vstd::prelude::*;
use crate::math::{
    SCALE, GRAV, COORD_LIMIT, MASS_LIMIT, FORCE_CLAMP, clamped, tdiv, lemma_tdiv_neg,
    lemma_tdiv_remainder, lemma_isqrt_props,
};
use crate::object::{
    CelestialObject, valid_body, dist2, dist, force_x, force_y, disp_of, lemma_dist2_nonneg,
    lemma_dist2_symmetric,
};
use crate::simulation::{
    touching, mass_sum, all_valid, net_fx, net_fy, accel_x, accel_y, integrate_one,
    integrate_all, cands_row, cands_upto, merge_cands, merge_bodies, merge_step, apply_merges,
    falses, compact, tick_result, alive_mass, lemma_touching_symmetric, lemma_mass_sum_congruent,
    lemma_alive_mass_all_false, lemma_alive_mass_two, lemma_alive_mass_mark_dead,
    lemma_alive_mass_update_body, lemma_compact_mass, lemma_compact_valid,
    lemma_compact_contains, lemma_merge_bodies_valid,
};

verus! {

/// Newton's third law of the fixed-point force model: for any two
/// non-coincident bodies, the force `b` exerts on `a` is the exact
/// negation of the force `a` exerts on `b`, component by component.
pub proof fn lemma_force_antisymmetric(a: CelestialObject, b: CelestialObject)
    requires
        dist2(a, b) != 0,
    ensures
        force_x(a, b) == -force_x(b, a),
        force_y(a, b) == -force_y(b, a),
{
    lemma_dist2_nonneg(a, b);
    lemma_dist2_symmetric(a, b);
    lemma_isqrt_props(dist2(a, b));
    let r = dist(a, b);
    assert(r >= 1) by (nonlinear_arith)
        requires
            r >= 0,
            dist2(a, b) >= 1,
            dist2(a, b) < (r + 1) * (r + 1),
    ;
    let den = dist2(a, b) * dist(a, b);
    assert(den >= 1) by (nonlinear_arith)
        requires
            dist2(a, b) >= 1,
            dist(a, b) >= 1,
            den == dist2(a, b) * dist(a, b),
    ;
    assert(GRAV * b.mass * a.mass * SCALE * (a.x - b.x) == -(GRAV * a.mass * b.mass * SCALE * (
    b.x - a.x))) by (nonlinear_arith);
    assert(GRAV * b.mass * a.mass * SCALE * (a.y - b.y) == -(GRAV * a.mass * b.mass * SCALE * (
    b.y - a.y))) by (nonlinear_arith);
    lemma_tdiv_neg(GRAV * a.mass * b.mass * SCALE * (b.x - a.x), den);
    lemma_tdiv_neg(GRAV * a.mass * b.mass * SCALE * (b.y - a.y), den);
}

/// Merging conserves total mass exactly, whatever the bodies' flags.
pub proof fn lemma_merge_conserves_mass(b1: CelestialObject, b2: CelestialObject)
    requires
        valid_body(b1),
        valid_body(b2),
        b1.mass + b2.mass <= MASS_LIMIT,
    ensures
        merge_bodies(b1, b2).mass == b1.mass + b2.mass,
{
    lemma_merge_bodies_valid(b1, b2);
}

/// Merging two free bodies conserves the mass-weighted centroid up to
/// the fixed-point grid: the merged position, scaled back up by the
/// total mass, differs from the exact weighted sum of the positions by
/// less than one part in the total mass, on each axis; the same holds
/// for the previous positions.
pub proof fn lemma_merge_centroid(b1: CelestialObject, b2: CelestialObject)
    requires
        valid_body(b1),
        valid_body(b2),
        b1.mass + b2.mass <= MASS_LIMIT,
        !b1.fixed,
        !b2.fixed,
    ensures
        ({
            let m = merge_bodies(b1, b2);
            let total = b1.mass + b2.mass;
            &&& m.mass == total
            &&& -total < b1.mass * b1.x + b2.mass * b2.x - total * m.x < total
            &&& -total < b1.mass * b1.y + b2.mass * b2.y - total * m.y < total
            &&& -total < b1.mass * b1.prev_x + b2.mass * b2.prev_x - total * m.prev_x < total
            &&& -total < b1.mass * b1.prev_y + b2.mass * b2.prev_y - total * m.prev_y < total
        }),
{
    let total = b1.mass + b2.mass;
    lemma_merge_bodies_valid(b1, b2);
    lemma_tdiv_remainder(b1.mass * b1.x + b2.mass * b2.x, total as int);
    lemma_tdiv_remainder(b1.mass * b1.y + b2.mass * b2.y, total as int);
    lemma_tdiv_remainder(b1.mass * b1.prev_x + b2.mass * b2.prev_x, total as int);
    lemma_tdiv_remainder(b1.mass * b1.prev_y + b2.mass * b2.prev_y, total as int);
}

/// Every candidate pair of a row is in range, names row `i` first, and
/// joins two touching bodies.
proof fn lemma_cands_row_range(s: Seq<CelestialObject>, i: int, j: int)
    requires
        0 <= i < s.len(),
        j <= s.len(),
        s.len() <= usize::MAX,
    ensures
        forall|q: int|
            0 <= q < cands_row(s, i, j).len() ==> {
                let p = #[trigger] cands_row(s, i, j)[q];
                &&& p.0 == i
                &&& i < p.1 < j
                &&& touching(s[p.0 as int], s[p.1 as int])
            },
    decreases j,
{
    if j > i + 1 {
        lemma_cands_row_range(s, i, j - 1);
        let whole = cands_row(s, i, j);
        let left = cands_row(s, i, j - 1);
        assert forall|q: int| 0 <= q < whole.len() implies {
            let p = #[trigger] whole[q];
            &&& p.0 == i
            &&& i < p.1 < j
            &&& touching(s[p.0 as int], s[p.1 as int])
        } by {
            if q < left.len() {
                assert(whole[q] == left[q]);
            } else {
                assert(whole[q] == (i as usize, (j - 1) as usize));
            }
        }
    }
}

/// Every candidate pair is in range, ordered low-to-high, and joins two
/// touching bodies.
proof fn lemma_cands_upto_range(s: Seq<CelestialObject>, i: int)
    requires
        i <= s.len(),
        s.len() <= usize::MAX,
    ensures
        forall|q: int|
            0 <= q < cands_upto(s, i).len() ==> {
                let p = #[trigger] cands_upto(s, i)[q];
                &&& 0 <= p.0 < p.1 < s.len()
                &&& p.0 < i
                &&& touching(s[p.0 as int], s[p.1 as int])
            },
    decreases i,
{
    if i > 0 {
        lemma_cands_upto_range(s, i - 1);
        lemma_cands_row_range(s, i - 1, s.len() as int);
        let whole = cands_upto(s, i);
        let left = cands_upto(s, i - 1);
        let row = cands_row(s, i - 1, s.len() as int);
        assert forall|q: int| 0 <= q < whole.len() implies {
            let p = #[trigger] whole[q];
            &&& 0 <= p.0 < p.1 < s.len()
            &&& p.0 < i
            &&& touching(s[p.0 as int], s[p.1 as int])
        } by {
            if q < left.len() {
                assert(whole[q] == left[q]);
            } else {
                assert(whole[q] == row[q - left.len()]);
            }
        }
    }
}

/// Applying any in-range candidate list preserves validity, lengths and
/// the alive mass: every merge pools the masses of two alive slots.
proof fn lemma_apply_merges_mass(
    bs: Seq<CelestialObject>,
    dead: Seq<bool>,
    ps: Seq<(usize, usize)>,
)
    requires
        dead.len() == bs.len(),
        all_valid(bs),
        alive_mass(bs, dead) <= MASS_LIMIT,
        forall|q: int|
            0 <= q < ps.len() ==> 0 <= (#[trigger] ps[q]).0 < ps[q].1 < bs.len(),
    ensures
        apply_merges(bs, dead, ps).0.len() == bs.len(),
        apply_merges(bs, dead, ps).1.len() == dead.len(),
        all_valid(apply_merges(bs, dead, ps).0),
        alive_mass(apply_merges(bs, dead, ps).0, apply_merges(bs, dead, ps).1) == alive_mass(
            bs,
            dead,
        ),
    decreases ps.len(),
{
    if ps.len() > 0 {
        let i = ps[0].0 as int;
        let j = ps[0].1 as int;
        let st = merge_step(bs, dead, i, j);
        if !dead[i] && !dead[j] {
            let b1 = bs[i];
            let b2 = bs[j];
            lemma_alive_mass_two(bs, dead, i, j);
            lemma_merge_bodies_valid(b1, b2);
            let m = merge_bodies(b1, b2);
            let surv = if b1.mass >= b2.mass { i } else { j };
            let gone = if b1.mass >= b2.mass { j } else { i };
            lemma_alive_mass_update_body(bs, dead, surv, m);
            lemma_alive_mass_mark_dead(bs.update(surv, m), dead, gone);
            assert(all_valid(st.0)) by {
                assert forall|k: int| 0 <= k < st.0.len() implies valid_body(
                    #[trigger] st.0[k],
                ) by {
                    if st.0[k] != m {
                        assert(st.0[k] == bs[k]);
                    }
                }
            }
        }
        assert(forall|q: int|
            0 <= q < ps.drop_first().len() ==> 0 <= (#[trigger] ps.drop_first()[q]).0
                < ps.drop_first()[q].1 < st.0.len());
        lemma_apply_merges_mass(st.0, st.1, ps.drop_first());
    }
}

/// Integration moves bodies but never creates, destroys or reweighs
/// them: the integrated sequence has the same length, validity and
/// masses, slot by slot.
proof fn lemma_integrate_all_masses(s: Seq<CelestialObject>, dt: int)
    requires
        all_valid(s),
    ensures
        integrate_all(s, dt).len() == s.len(),
        all_valid(integrate_all(s, dt)),
        forall|k: int|
            0 <= k < s.len() ==> (#[trigger] integrate_all(s, dt)[k]).mass == s[k].mass,
        mass_sum(integrate_all(s, dt)) == mass_sum(s),
{
    let integ = integrate_all(s, dt);
    assert forall|k: int| 0 <= k < s.len() implies valid_body(#[trigger] integ[k]) && integ[
        k
    ].mass == s[k].mass by {
        assert(integ[k] == integrate_one(s, s[k], dt));
    }
    lemma_mass_sum_congruent(integ, s);
}

/// A tick conserves total mass exactly, and every surviving body is one
/// the engine accepts. This holds whatever merges occur, including
/// chains of three or more mutually touching bodies, because each merge
/// pools the masses of two still-alive slots and retires one of them.
pub proof fn lemma_tick_conserves_mass(s: Seq<CelestialObject>, dt: int)
    requires
        all_valid(s),
        mass_sum(s) <= MASS_LIMIT,
        s.len() <= usize::MAX,
    ensures
        mass_sum(tick_result(s, dt)) == mass_sum(s),
        all_valid(tick_result(s, dt)),
{
    let integ = integrate_all(s, dt);
    let nothing = falses(s.len());
    lemma_integrate_all_masses(s, dt);
    lemma_alive_mass_all_false(integ, nothing);
    lemma_cands_upto_range(s, s.len() as int);
    lemma_apply_merges_mass(integ, nothing, merge_cands(s));
    let st = apply_merges(integ, nothing, merge_cands(s));
    lemma_compact_mass(st.0, st.1);
    lemma_compact_valid(st.0, st.1);
}

/// A candidate list that never names slot `i` leaves slot `i` alone.
proof fn lemma_apply_merges_untouched(
    bs: Seq<CelestialObject>,
    dead: Seq<bool>,
    ps: Seq<(usize, usize)>,
    i: int,
)
    requires
        dead.len() == bs.len(),
        0 <= i < bs.len(),
        !dead[i],
        forall|q: int| 0 <= q < ps.len() ==> (#[trigger] ps[q]).0 != i && ps[q].1 != i,
    ensures
        apply_merges(bs, dead, ps).0.len() == bs.len(),
        apply_merges(bs, dead, ps).1.len() == dead.len(),
        apply_merges(bs, dead, ps).0[i] == bs[i],
        !apply_merges(bs, dead, ps).1[i],
    decreases ps.len(),
{
    if ps.len() > 0 {
        let st = merge_step(bs, dead, ps[0].0 as int, ps[0].1 as int);
        lemma_apply_merges_untouched(st.0, st.1, ps.drop_first(), i);
    }
}

/// A fixed body that touches no other body comes out of a tick exactly
/// as it went in: forces never move it, and no merge absorbs it. (When
/// a fixed body does touch another body, the two merge and the merged
/// body stands at their mass-weighted centroid, so its position can
/// change; that input is excluded here.)
pub proof fn lemma_fixed_body_unmoved(s: Seq<CelestialObject>, dt: int, i: int)
    requires
        0 <= i < s.len(),
        s.len() <= usize::MAX,
        s[i].fixed,
        forall|j: int| 0 <= j < s.len() && j != i ==> !touching(s[i], #[trigger] s[j]),
    ensures
        tick_result(s, dt).contains(s[i]),
{
    let integ = integrate_all(s, dt);
    let nothing = falses(s.len());
    assert(integ[i] == integrate_one(s, s[i], dt));
    lemma_cands_upto_range(s, s.len() as int);
    let ps = merge_cands(s);
    assert forall|q: int| 0 <= q < ps.len() implies (#[trigger] ps[q]).0 != i && ps[q].1
        != i by {
        if ps[q].0 == i {
            assert(touching(s[i], s[ps[q].1 as int]));
        }
        if ps[q].1 == i {
            assert(touching(s[ps[q].0 as int], s[i]));
            lemma_touching_symmetric(s[ps[q].0 as int], s[i]);
        }
    }
    lemma_apply_merges_untouched(integ, nothing, ps, i);
    let st = apply_merges(integ, nothing, ps);
    lemma_compact_contains(st.0, st.1, i);
}

/// The displacement law is odd in the acceleration.
proof fn lemma_disp_neg(a: int, dt: int)
    ensures
        disp_of(-a, dt) == -disp_of(a, dt),
{
    assert((-a) * dt == -(a * dt)) by (nonlinear_arith);
    lemma_tdiv_neg(a * dt, SCALE as int);
    let t1 = tdiv(a * dt, SCALE as int);
    assert((-t1) * dt == -(t1 * dt)) by (nonlinear_arith);
    lemma_tdiv_neg(t1 * dt, SCALE as int);
}

/// Two equal-mass free bodies at rest, apart but not touching, move by
/// exactly opposite displacements in one tick, provided neither
/// displaced position saturates at the edge of the coordinate domain.
pub proof fn lemma_equal_mass_pair_symmetry(s: Seq<CelestialObject>, dt: int)
    requires
        s.len() == 2,
        all_valid(s),
        s[0].mass == s[1].mass,
        !s[0].fixed,
        !s[1].fixed,
        s[0].prev_x == s[0].x,
        s[0].prev_y == s[0].y,
        s[1].prev_x == s[1].x,
        s[1].prev_y == s[1].y,
        dist2(s[0], s[1]) != 0,
        !touching(s[0], s[1]),
        -COORD_LIMIT <= s[0].x + disp_of(accel_x(s, s[0]), dt) <= COORD_LIMIT,
        -COORD_LIMIT <= s[0].y + disp_of(accel_y(s, s[0]), dt) <= COORD_LIMIT,
        -COORD_LIMIT <= s[1].x + disp_of(accel_x(s, s[1]), dt) <= COORD_LIMIT,
        -COORD_LIMIT <= s[1].y + disp_of(accel_y(s, s[1]), dt) <= COORD_LIMIT,
    ensures
        tick_result(s, dt).len() == 2,
        tick_result(s, dt)[0].x - s[0].x == -(tick_result(s, dt)[1].x - s[1].x),
        tick_result(s, dt)[0].y - s[0].y == -(tick_result(s, dt)[1].y - s[1].y),
{
    let b0 = s[0];
    let b1 = s[1];
    lemma_dist2_symmetric(b0, b1);
    lemma_force_antisymmetric(b0, b1);

    // Net forces on the two bodies are exact negations.
    assert(dist2(b0, b0) == 0);
    assert(dist2(b1, b1) == 0);
    assert(net_fx(s, b0, 0) == 0);
    assert(net_fx(s, b0, 1) == 0);
    assert(net_fx(s, b0, 2) == clamped(force_x(b0, b1), FORCE_CLAMP as int));
    assert(net_fy(s, b0, 0) == 0);
    assert(net_fy(s, b0, 1) == 0);
    assert(net_fy(s, b0, 2) == clamped(force_y(b0, b1), FORCE_CLAMP as int));
    assert(net_fx(s, b1, 0) == 0);
    assert(net_fx(s, b1, 1) == clamped(force_x(b1, b0), FORCE_CLAMP as int));
    assert(net_fx(s, b1, 2) == net_fx(s, b1, 1));
    assert(net_fy(s, b1, 0) == 0);
    assert(net_fy(s, b1, 1) == clamped(force_y(b1, b0), FORCE_CLAMP as int));
    assert(net_fy(s, b1, 2) == net_fy(s, b1, 1));
    assert(net_fx(s, b1, 2) == -net_fx(s, b0, 2));
    assert(net_fy(s, b1, 2) == -net_fy(s, b0, 2));

    // So are the accelerations and the displacements.
    let nx = net_fx(s, b0, 2);
    let ny = net_fy(s, b0, 2);
    assert((-nx) * SCALE == -(nx * SCALE)) by (nonlinear_arith);
    assert((-ny) * SCALE == -(ny * SCALE)) by (nonlinear_arith);
    lemma_tdiv_neg(nx * SCALE, b0.mass as int);
    lemma_tdiv_neg(ny * SCALE, b0.mass as int);
    assert(accel_x(s, b1) == -accel_x(s, b0));
    assert(accel_y(s, b1) == -accel_y(s, b0));
    lemma_disp_neg(accel_x(s, b0), dt);
    lemma_disp_neg(accel_y(s, b0), dt);

    // No merge happens: the only possible pair does not touch.
    assert(cands_row(s, 0, 1) =~= Seq::<(usize, usize)>::empty());
    assert(cands_row(s, 0, 2) =~= Seq::<(usize, usize)>::empty());
    assert(cands_row(s, 1, 2) =~= Seq::<(usize, usize)>::empty());
    assert(cands_upto(s, 0) =~= Seq::<(usize, usize)>::empty());
    assert(cands_upto(s, 1) =~= Seq::<(usize, usize)>::empty());
    assert(merge_cands(s) =~= Seq::<(usize, usize)>::empty());
    let integ = integrate_all(s, dt);
    assert(apply_merges(integ, falses(2), merge_cands(s)) == (integ, falses(2)));

    // Compaction keeps both bodies.
    let nothing = falses(s.len());
    assert(!nothing[0] && !nothing[1]);
    assert(compact(integ.drop_last().drop_last(), nothing.drop_last().drop_last())
        =~= Seq::<CelestialObject>::empty());
    assert(compact(integ.drop_last(), nothing.drop_last()) =~= seq![integ[0]]);
    assert(compact(integ, nothing) =~= seq![integ[0], integ[1]]);
    assert(tick_result(s, dt) =~= integ);

    // The two displacements are exact opposites.
    assert(integ[0] == integrate_one(s, s[0], dt));
    assert(integ[1] == integrate_one(s, s[1], dt));
    assert(integ[0].x == clamped(s[0].x + disp_of(accel_x(s, b0), dt), COORD_LIMIT as int));
    assert(integ[1].x == clamped(s[1].x + disp_of(accel_x(s, b1), dt), COORD_LIMIT as int));
    assert(integ[0].y == clamped(s[0].y + disp_of(accel_y(s, b0), dt), COORD_LIMIT as int));
    assert(integ[1].y == clamped(s[1].y + disp_of(accel_y(s, b1), dt), COORD_LIMIT as int));
}

} // verus!
