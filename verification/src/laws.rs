//! Laws of the aggregation, stated and proved over the rational model.
//!
//! The checked accumulator of `aggregate` is tied to plain mathematical
//! folds (`q_total`, `q_wsum`), and the centroid laws — the weighted-average
//! formula, invariance under scaling of the masses, sequential atom
//! numbering, and fatality of a missing atom or a zero total mass — are
//! proved over those folds and over the run.

use crate::aggregate::{
    spec_accum, spec_aggregate, spec_bead, spec_run, spec_step, AccQ, AggregateError, BeadQ,
    lemma_run_err,
};
use crate::mapping::GroupQ;
use crate::rat::{q_add, q_div, q_div_norm, q_eqv, q_mul, q_wf, q_zero, Q};
use crate::structure::{spec_lookup, AtomState, Structure};
use crate::vec3::{qv3_zero, QV3};
use vstd::prelude::*;

verus! {

/// The sum of a sequence of rationals.
pub open spec fn q_total(ms: Seq<Q>) -> Q
    decreases ms.len(),
{
    if ms.len() == 0 {
        q_zero()
    } else {
        q_add(q_total(ms.drop_last()), ms.last())
    }
}

/// The weighted sum `sum ms[k] * xs[k]` (over the common length).
pub open spec fn q_wsum(ms: Seq<Q>, xs: Seq<Q>) -> Q
    decreases ms.len(),
{
    if ms.len() == 0 {
        q_zero()
    } else {
        q_add(q_wsum(ms.drop_last(), xs.drop_last()), q_mul(ms.last(), xs.last()))
    }
}

/// The componentwise weighted sum of a sequence of vectors.
pub open spec fn q_wsum3(ms: Seq<Q>, vs: Seq<QV3>) -> QV3 {
    QV3 {
        x: q_wsum(ms, vs.map_values(|v: QV3| v.x)),
        y: q_wsum(ms, vs.map_values(|v: QV3| v.y)),
        z: q_wsum(ms, vs.map_values(|v: QV3| v.z)),
    }
}

/// The masses listed by a bead's constituent list.
pub open spec fn masses_of(items: Seq<(Seq<char>, Q)>) -> Seq<Q> {
    items.map_values(|it: (Seq<char>, Q)| it.1)
}

/// The looked-up positions of a bead's constituents in a residue.
pub open spec fn positions_of(
    atoms: Seq<(String, AtomState)>,
    items: Seq<(Seq<char>, Q)>,
) -> Seq<QV3> {
    items.map_values(|it: (Seq<char>, Q)| spec_lookup(atoms, it.0).unwrap().position@)
}

/// The looked-up velocities of a bead's constituents in a residue.
pub open spec fn velocities_of(
    atoms: Seq<(String, AtomState)>,
    items: Seq<(Seq<char>, Q)>,
) -> Seq<QV3> {
    items.map_values(|it: (Seq<char>, Q)| spec_lookup(atoms, it.0).unwrap().velocity@)
}

/// Every rational of the sequence is well-formed.
pub open spec fn all_wf(ms: Seq<Q>) -> bool {
    forall|k: int| 0 <= k < ms.len() ==> q_wf(#[trigger] ms[k])
}

/// Every mass scaled by the same factor.
pub open spec fn scale_masses(ms: Seq<Q>, c: Q) -> Seq<Q> {
    ms.map_values(|m: Q| q_mul(c, m))
}

proof fn nl_unit(x: int)
    by (nonlinear_arith)
    ensures
        0 * x == 0,
        x * 0 == 0,
        x * 1 == x,
        1 * x == x,
{
}

proof fn nl_pos(a: int, b: int)
    by (nonlinear_arith)
    requires
        a > 0,
        b > 0,
    ensures
        a * b > 0,
{
}

proof fn nl_nonzero(a: int, b: int)
    by (nonlinear_arith)
    requires
        a != 0,
        b != 0,
    ensures
        a * b != 0,
{
}

proof fn nl_assoc(x: int, y: int, z: int)
    by (nonlinear_arith)
    ensures
        (x * y) * z == x * (y * z),
{
}

proof fn nl_neg(x: int, y: int)
    by (nonlinear_arith)
    ensures
        (-x) * y == x * (-y),
{
}

proof fn nl_distr_right(x: int, y: int, z: int)
    by (nonlinear_arith)
    ensures
        (x + y) * z == x * z + y * z,
{
}

proof fn nl_distr_left(x: int, y: int, z: int)
    by (nonlinear_arith)
    ensures
        x * (y + z) == x * y + x * z,
{
}

proof fn nl_perm4(a: int, b: int, c: int, d: int)
    by (nonlinear_arith)
    ensures
        (a * b) * (c * d) == (a * c) * (b * d),
        (a * b) * (c * d) == (a * d) * (b * c),
        (a * b) * (c * d) == (a * d) * (c * b),
{
}

proof fn nl_add_cong(an: int, ad: int, a2n: int, a2d: int, bn: int, bd: int, b2n: int, b2d: int)
    requires
        an * a2d == a2n * ad,
        bn * b2d == b2n * bd,
    ensures
        (an * bd + bn * ad) * (a2d * b2d) == (a2n * b2d + b2n * a2d) * (ad * bd),
{
    nl_distr_right(an * bd, bn * ad, a2d * b2d);
    nl_distr_right(a2n * b2d, b2n * a2d, ad * bd);
    nl_perm4(an, bd, a2d, b2d);
    assert((an * a2d) * (bd * b2d) == (a2n * ad) * (bd * b2d));
    nl_perm4(a2n, ad, bd, b2d);
    nl_perm4(bn, ad, a2d, b2d);
    assert((bn * b2d) * (ad * a2d) == (b2n * bd) * (ad * a2d));
    nl_perm4(b2n, bd, ad, a2d);
}

proof fn nl_div_cong(an: int, ad: int, a2n: int, a2d: int, bn: int, bd: int, b2n: int, b2d: int)
    by (nonlinear_arith)
    requires
        an * a2d == a2n * ad,
        bn * b2d == b2n * bd,
    ensures
        (an * bd) * (a2d * b2n) == (a2n * b2d) * (ad * bn),
{
}

proof fn nl_trans(an: int, ad: int, bn: int, bd: int, cn: int, cd: int)
    by (nonlinear_arith)
    requires
        an * bd == bn * ad,
        bn * cd == cn * bd,
        bd != 0,
    ensures
        an * cd == cn * ad,
{
}

proof fn nl_mono_helper(x: int, cd: int, ad: int, bd: int)
    by (nonlinear_arith)
    ensures
        (x * cd) * (cd * (ad * bd)) == x * ((cd * ad) * (cd * bd)),
{
}

proof fn nl_distrib_mono1(cn: int, cd: int, an: int, ad: int, bn: int, bd: int)
    ensures
        ((cn * an) * (cd * bd)) * (cd * (ad * bd)) == (cn * (an * bd)) * ((cd * ad) * (cd * bd)),
{
    assert((cn * an) * (cd * bd) == (cn * (an * bd)) * cd) by (nonlinear_arith);
    nl_mono_helper(cn * (an * bd), cd, ad, bd);
}

proof fn nl_distrib_mono2(cn: int, cd: int, an: int, ad: int, bn: int, bd: int)
    by (nonlinear_arith)
    ensures
        ((cn * bn) * (cd * ad)) * (cd * (ad * bd)) == (cn * (bn * ad)) * ((cd * ad) * (cd * bd)),
{
}

proof fn nl_distrib(cn: int, cd: int, an: int, ad: int, bn: int, bd: int)
    ensures
        ((cn * an) * (cd * bd) + (cn * bn) * (cd * ad)) * (cd * (ad * bd)) == (cn * (an * bd + bn
            * ad)) * ((cd * ad) * (cd * bd)),
{
    nl_distr_right((cn * an) * (cd * bd), (cn * bn) * (cd * ad), cd * (ad * bd));
    nl_distr_left(cn, an * bd, bn * ad);
    nl_distr_right(cn * (an * bd), cn * (bn * ad), (cd * ad) * (cd * bd));
    nl_distrib_mono1(cn, cd, an, ad, bn, bd);
    nl_distrib_mono2(cn, cd, an, ad, bn, bd);
}

proof fn nl_cancel(cn: int, cd: int, an: int, ad: int, bn: int, bd: int)
    by (nonlinear_arith)
    ensures
        ((cn * an) * (cd * bd)) * (ad * bn) == (an * bd) * ((cd * ad) * (cn * bn)),
{
}

/// Zero is a left identity of addition, exactly.
pub proof fn lemma_add_zero(a: Q)
    ensures
        q_add(q_zero(), a) == a,
{
    nl_unit(a.n);
    nl_unit(a.d);
    assert(q_add(q_zero(), a) =~= a);
}

/// Equivalence survives addition on both sides.
pub proof fn lemma_eqv_add(a: Q, a2: Q, b: Q, b2: Q)
    requires
        q_eqv(a, a2),
        q_eqv(b, b2),
    ensures
        q_eqv(q_add(a, b), q_add(a2, b2)),
{
    nl_add_cong(a.n, a.d, a2.n, a2.d, b.n, b.d, b2.n, b2.d);
}

/// Equivalence survives division on both sides.
pub proof fn lemma_eqv_div(a: Q, a2: Q, b: Q, b2: Q)
    requires
        q_eqv(a, a2),
        q_eqv(b, b2),
    ensures
        q_eqv(q_div(a, b), q_div(a2, b2)),
{
    nl_div_cong(a.n, a.d, a2.n, a2.d, b.n, b.d, b2.n, b2.d);
}

/// Equivalence is transitive through a rational whose denominator is not zero.
pub proof fn lemma_eqv_trans(a: Q, b: Q, c: Q)
    requires
        q_eqv(a, b),
        q_eqv(b, c),
        b.d != 0,
    ensures
        q_eqv(a, c),
{
    nl_trans(a.n, a.d, b.n, b.d, c.n, c.d);
}

/// Multiplication distributes over addition, up to equivalence.
pub proof fn lemma_eqv_distrib(c: Q, a: Q, b: Q)
    ensures
        q_eqv(q_add(q_mul(c, a), q_mul(c, b)), q_mul(c, q_add(a, b))),
{
    nl_distrib(c.n, c.d, a.n, a.d, b.n, b.d);
}

/// Multiplication is associative, exactly.
pub proof fn lemma_mul_assoc(a: Q, b: Q, c: Q)
    ensures
        q_mul(q_mul(a, b), c) == q_mul(a, q_mul(b, c)),
{
    nl_assoc(a.n, b.n, c.n);
    nl_assoc(a.d, b.d, c.d);
    assert(q_mul(q_mul(a, b), c) =~= q_mul(a, q_mul(b, c)));
}

/// A common factor of numerator and denominator cancels, up to equivalence.
pub proof fn lemma_eqv_cancel(c: Q, a: Q, b: Q)
    ensures
        q_eqv(q_div(q_mul(c, a), q_mul(c, b)), q_div(a, b)),
{
    nl_cancel(c.n, c.d, a.n, a.d, b.n, b.d);
}

/// The sign-normalised quotient denotes the same value as the plain quotient.
pub proof fn lemma_div_norm_eqv(a: Q, b: Q)
    ensures
        q_eqv(q_div_norm(a, b), q_div(a, b)),
{
    if b.n < 0 {
        nl_neg(a.n * b.d, a.d * b.n);
    }
}

/// A successful accumulation is exactly the mathematical fold: the total is
/// the sum of the listed masses, the position and velocity sums are the
/// mass-weighted sums of the looked-up atom states, and every constituent
/// has been found.
pub proof fn lemma_accum_fold(atoms: Seq<(String, AtomState)>, items: Seq<(Seq<char>, Q)>)
    ensures
        spec_accum(atoms, items) matches Ok(st) ==> {
            &&& forall|k: int|
                0 <= k < items.len() ==> (#[trigger] spec_lookup(atoms, items[k].0)) is Some
            &&& st.total == q_total(masses_of(items))
            &&& st.pos == q_wsum3(masses_of(items), positions_of(atoms, items))
            &&& st.vel == q_wsum3(masses_of(items), velocities_of(atoms, items))
        },
    decreases items.len(),
{
    if items.len() == 0 {
        assert(masses_of(items) =~~= Seq::<Q>::empty());
        assert(q_wsum3(masses_of(items), positions_of(atoms, items)) =~~= qv3_zero());
        assert(q_wsum3(masses_of(items), velocities_of(atoms, items)) =~~= qv3_zero());
    } else if spec_accum(atoms, items) is Ok {
        let front = items.drop_last();
        lemma_accum_fold(atoms, front);
        let stf = spec_accum(atoms, front)->Ok_0;
        let st = spec_accum(atoms, items)->Ok_0;
        let item = items.last();
        assert(spec_step(atoms, item, stf) == Ok::<AccQ, AggregateError>(st));
        let a = spec_lookup(atoms, item.0)->Some_0;
        let ms = masses_of(items);
        let ps = positions_of(atoms, items);
        let vs = velocities_of(atoms, items);
        assert(ms.drop_last() =~~= masses_of(front));
        assert(ps.drop_last() =~~= positions_of(atoms, front));
        assert(vs.drop_last() =~~= velocities_of(atoms, front));
        assert(ms.last() == item.1);
        assert(ps.last() == a.position@);
        assert(vs.last() == a.velocity@);
        assert(st.total == q_add(stf.total, item.1));
        assert(st.pos.x == q_add(stf.pos.x, q_mul(item.1, a.position@.x)));
        assert(st.pos.y == q_add(stf.pos.y, q_mul(item.1, a.position@.y)));
        assert(st.pos.z == q_add(stf.pos.z, q_mul(item.1, a.position@.z)));
        assert(st.vel.x == q_add(stf.vel.x, q_mul(item.1, a.velocity@.x)));
        assert(st.vel.y == q_add(stf.vel.y, q_mul(item.1, a.velocity@.y)));
        assert(st.vel.z == q_add(stf.vel.z, q_mul(item.1, a.velocity@.z)));
        assert(ps.map_values(|v: QV3| v.x).drop_last() =~~= positions_of(
            atoms,
            front,
        ).map_values(|v: QV3| v.x));
        assert(ps.map_values(|v: QV3| v.y).drop_last() =~~= positions_of(
            atoms,
            front,
        ).map_values(|v: QV3| v.y));
        assert(ps.map_values(|v: QV3| v.z).drop_last() =~~= positions_of(
            atoms,
            front,
        ).map_values(|v: QV3| v.z));
        assert(vs.map_values(|v: QV3| v.x).drop_last() =~~= velocities_of(
            atoms,
            front,
        ).map_values(|v: QV3| v.x));
        assert(vs.map_values(|v: QV3| v.y).drop_last() =~~= velocities_of(
            atoms,
            front,
        ).map_values(|v: QV3| v.y));
        assert(vs.map_values(|v: QV3| v.z).drop_last() =~~= velocities_of(
            atoms,
            front,
        ).map_values(|v: QV3| v.z));
        assert(ps.map_values(|v: QV3| v.x).last() == a.position@.x);
        assert(ps.map_values(|v: QV3| v.y).last() == a.position@.y);
        assert(ps.map_values(|v: QV3| v.z).last() == a.position@.z);
        assert(vs.map_values(|v: QV3| v.x).last() == a.velocity@.x);
        assert(vs.map_values(|v: QV3| v.y).last() == a.velocity@.y);
        assert(vs.map_values(|v: QV3| v.z).last() == a.velocity@.z);
        assert(st.pos =~~= q_wsum3(ms, ps));
        assert(st.vel =~~= q_wsum3(ms, vs));
        assert forall|k: int|
            0 <= k < items.len() implies (#[trigger] spec_lookup(atoms, items[k].0)) is Some by {
            if k < items.len() - 1 {
                assert(items[k] == front[k]);
            }
        }
    }
}

/// The centroid formula of a bead: on success, each centroid component is
/// the mass-weighted sum of that component over the constituents, divided by
/// the total of the listed masses.
pub proof fn lemma_bead_centroid(atoms: Seq<(String, AtomState)>, items: Seq<(Seq<char>, Q)>)
    ensures
        spec_bead(atoms, items) matches Ok(b) ==> {
            let ms = masses_of(items);
            let ps = positions_of(atoms, items);
            let vs = velocities_of(atoms, items);
            &&& q_eqv(b.pos.x, q_div(q_wsum3(ms, ps).x, q_total(ms)))
            &&& q_eqv(b.pos.y, q_div(q_wsum3(ms, ps).y, q_total(ms)))
            &&& q_eqv(b.pos.z, q_div(q_wsum3(ms, ps).z, q_total(ms)))
            &&& q_eqv(b.vel.x, q_div(q_wsum3(ms, vs).x, q_total(ms)))
            &&& q_eqv(b.vel.y, q_div(q_wsum3(ms, vs).y, q_total(ms)))
            &&& q_eqv(b.vel.z, q_div(q_wsum3(ms, vs).z, q_total(ms)))
        },
{
    if spec_bead(atoms, items) is Ok {
        lemma_accum_fold(atoms, items);
        let st = spec_accum(atoms, items)->Ok_0;
        lemma_div_norm_eqv(st.pos.x, st.total);
        lemma_div_norm_eqv(st.pos.y, st.total);
        lemma_div_norm_eqv(st.pos.z, st.total);
        lemma_div_norm_eqv(st.vel.x, st.total);
        lemma_div_norm_eqv(st.vel.y, st.total);
        lemma_div_norm_eqv(st.vel.z, st.total);
    }
}

/// Centroid correctness for two constituents: the weighted sum over masses
/// `m1, m2` at values `x1, x2`, divided by the total, denotes exactly
/// `(m1*x1 + m2*x2) / (m1 + m2)`.
pub proof fn lemma_centroid_two_atoms(m1: Q, x1: Q, m2: Q, x2: Q)
    ensures
        q_total(seq![m1, m2]) == q_add(m1, m2),
        q_wsum(seq![m1, m2], seq![x1, x2]) == q_add(q_mul(m1, x1), q_mul(m2, x2)),
{
    let ms = seq![m1, m2];
    let xs = seq![x1, x2];
    assert(ms.drop_last() =~~= seq![m1]);
    assert(xs.drop_last() =~~= seq![x1]);
    assert(seq![m1].drop_last() =~~= Seq::<Q>::empty());
    assert(seq![x1].drop_last() =~~= Seq::<Q>::empty());
    assert(q_wsum(Seq::<Q>::empty(), Seq::<Q>::empty()) == q_zero());
    assert(q_total(Seq::<Q>::empty()) == q_zero());
    assert(q_wsum(seq![m1], seq![x1]) == q_add(q_zero(), q_mul(m1, x1)));
    assert(q_total(seq![m1]) == q_add(q_zero(), m1));
    lemma_add_zero(q_mul(m1, x1));
    lemma_add_zero(m1);
    assert(ms.last() == m2);
    assert(xs.last() == x2);
    assert(q_wsum(ms, xs) == q_add(q_mul(m1, x1), q_mul(m2, x2)));
    assert(q_total(ms) == q_add(m1, m2));
}

/// The denominator of a sum of well-formed rationals is positive.
pub proof fn lemma_total_wf(ms: Seq<Q>)
    requires
        all_wf(ms),
    ensures
        q_total(ms).d > 0,
    decreases ms.len(),
{
    if ms.len() > 0 {
        assert(all_wf(ms.drop_last()));
        lemma_total_wf(ms.drop_last());
        nl_pos(q_total(ms.drop_last()).d, ms.last().d);
    }
}

/// The denominator of a weighted sum of well-formed rationals is positive.
pub proof fn lemma_wsum_wf(ms: Seq<Q>, xs: Seq<Q>)
    requires
        ms.len() == xs.len(),
        all_wf(ms),
        all_wf(xs),
    ensures
        q_wsum(ms, xs).d > 0,
    decreases ms.len(),
{
    if ms.len() > 0 {
        assert(all_wf(ms.drop_last()));
        assert(all_wf(xs.drop_last()));
        lemma_wsum_wf(ms.drop_last(), xs.drop_last());
        nl_pos(ms.last().d, xs.last().d);
        nl_pos(q_wsum(ms.drop_last(), xs.drop_last()).d, ms.last().d * xs.last().d);
    }
}

/// The sum of the scaled masses denotes the scaled sum.
proof fn lemma_total_scale(ms: Seq<Q>, c: Q)
    requires
        all_wf(ms),
        q_wf(c),
    ensures
        q_eqv(q_total(scale_masses(ms, c)), q_mul(c, q_total(ms))),
    decreases ms.len(),
{
    let sc = scale_masses(ms, c);
    if ms.len() == 0 {
        nl_unit(c.n);
        nl_unit(c.d);
    } else {
        let front = ms.drop_last();
        let m = ms.last();
        assert(all_wf(front));
        lemma_total_scale(front, c);
        assert(sc.drop_last() =~~= scale_masses(front, c));
        assert(sc.last() == q_mul(c, m));
        let tsf = q_total(scale_masses(front, c));
        let tf = q_total(front);
        // q_total(sc) == q_add(tsf, q_mul(c, m))
        lemma_eqv_add(tsf, q_mul(c, tf), q_mul(c, m), q_mul(c, m));
        lemma_eqv_distrib(c, tf, m);
        lemma_total_wf(front);
        nl_pos(c.d, tf.d);
        nl_pos(c.d, m.d);
        nl_pos(c.d * tf.d, c.d * m.d);
        lemma_eqv_trans(
            q_total(sc),
            q_add(q_mul(c, tf), q_mul(c, m)),
            q_mul(c, q_add(tf, m)),
        );
    }
}

/// The weighted sum over the scaled masses denotes the scaled weighted sum.
proof fn lemma_wsum_scale(ms: Seq<Q>, xs: Seq<Q>, c: Q)
    requires
        ms.len() == xs.len(),
        all_wf(ms),
        all_wf(xs),
        q_wf(c),
    ensures
        q_eqv(q_wsum(scale_masses(ms, c), xs), q_mul(c, q_wsum(ms, xs))),
    decreases ms.len(),
{
    let sc = scale_masses(ms, c);
    if ms.len() == 0 {
        nl_unit(c.n);
        nl_unit(c.d);
    } else {
        let mfront = ms.drop_last();
        let xfront = xs.drop_last();
        let m = ms.last();
        let x = xs.last();
        assert(all_wf(mfront));
        assert(all_wf(xfront));
        lemma_wsum_scale(mfront, xfront, c);
        assert(sc.drop_last() =~~= scale_masses(mfront, c));
        assert(sc.last() == q_mul(c, m));
        let wsf = q_wsum(scale_masses(mfront, c), xfront);
        let wf_ = q_wsum(mfront, xfront);
        // q_wsum(sc, xs) == q_add(wsf, q_mul(q_mul(c, m), x))
        lemma_mul_assoc(c, m, x);
        lemma_eqv_add(wsf, q_mul(c, wf_), q_mul(c, q_mul(m, x)), q_mul(c, q_mul(m, x)));
        lemma_eqv_distrib(c, wf_, q_mul(m, x));
        lemma_wsum_wf(mfront, xfront);
        nl_pos(c.d, wf_.d);
        nl_pos(m.d, x.d);
        nl_pos(c.d, m.d * x.d);
        nl_pos(c.d * wf_.d, c.d * (m.d * x.d));
        lemma_eqv_trans(
            q_wsum(sc, xs),
            q_add(q_mul(c, wf_), q_mul(c, q_mul(m, x))),
            q_mul(c, q_add(wf_, q_mul(m, x))),
        );
    }
}

/// Mass invariance under scaling: scaling every mass of a bead's definition
/// by the same positive rational leaves the centroid — the weighted sum of
/// any per-constituent values divided by the total mass — unchanged.
pub proof fn lemma_mass_scaling(ms: Seq<Q>, xs: Seq<Q>, c: Q)
    requires
        ms.len() == xs.len(),
        all_wf(ms),
        all_wf(xs),
        q_wf(c),
        c.n > 0,
        q_total(ms).n != 0,
    ensures
        q_eqv(
            q_div(q_wsum(scale_masses(ms, c), xs), q_total(scale_masses(ms, c))),
            q_div(q_wsum(ms, xs), q_total(ms)),
        ),
{
    let ws = q_wsum(scale_masses(ms, c), xs);
    let ts = q_total(scale_masses(ms, c));
    let w = q_wsum(ms, xs);
    let t = q_total(ms);
    lemma_wsum_scale(ms, xs, c);
    lemma_total_scale(ms, c);
    lemma_eqv_div(ws, q_mul(c, w), ts, q_mul(c, t));
    lemma_eqv_cancel(c, w, t);
    lemma_wsum_wf(ms, xs);
    nl_pos(c.d, w.d);
    nl_nonzero(c.n, t.n);
    nl_nonzero(c.d * w.d, c.n * t.n);
    lemma_eqv_trans(
        q_div(ws, ts),
        q_div(q_mul(c, w), q_mul(c, t)),
        q_div(w, t),
    );
}

/// Every bead of every residue up to (and not including) position `(i, j)`
/// of the run succeeds.
pub open spec fn beads_ok_upto(s: Structure, gs: Seq<GroupQ>, i: int, j: int) -> bool {
    forall|a: int, b: int|
        0 <= a && 0 <= b && b < gs.len() && (a < i || (a == i && b < j)) ==> (#[trigger] spec_bead(
            s.residues@[a].atoms@,
            gs[b].items,
        )) is Ok
}

/// A run reaches a point exactly when every bead before that point succeeds.
proof fn lemma_run_ok_iff(s: Structure, gs: Seq<GroupQ>, i: nat, j: nat)
    requires
        j <= gs.len(),
    ensures
        spec_run(s, gs, i, j) is Ok <==> beads_ok_upto(s, gs, i as int, j as int),
    decreases i, j,
{
    if i == 0 && j == 0 {
    } else if j == 0 {
        lemma_run_ok_iff(s, gs, (i - 1) as nat, gs.len());
        assert(beads_ok_upto(s, gs, i as int - 1, gs.len() as int) == beads_ok_upto(
            s,
            gs,
            i as int,
            0,
        )) by {
            if beads_ok_upto(s, gs, i as int - 1, gs.len() as int) {
                assert forall|a: int, b: int|
                    0 <= a && 0 <= b && b < gs.len() && (a < i as int || (a == i as int && b
                        < 0)) implies (#[trigger] spec_bead(
                    s.residues@[a].atoms@,
                    gs[b].items,
                )) is Ok by {
                    assert(a < i as int - 1 || (a == i as int - 1 && b < gs.len() as int));
                }
            }
            if beads_ok_upto(s, gs, i as int, 0) {
                assert forall|a: int, b: int|
                    0 <= a && 0 <= b && b < gs.len() && (a < i as int - 1 || (a == i as int - 1
                        && b < gs.len() as int)) implies (#[trigger] spec_bead(
                    s.residues@[a].atoms@,
                    gs[b].items,
                )) is Ok by {
                    assert(a < i as int);
                }
            }
        }
    } else {
        lemma_run_ok_iff(s, gs, i, (j - 1) as nat);
        if spec_run(s, gs, i, j) is Ok {
            assert(spec_run(s, gs, i, (j - 1) as nat) is Ok);
            assert forall|a: int, b: int|
                0 <= a && 0 <= b && b < gs.len() && (a < i as int || (a == i as int && b
                    < j as int)) implies (#[trigger] spec_bead(
                s.residues@[a].atoms@,
                gs[b].items,
            )) is Ok by {
                if !(a < i as int || (a == i as int && b < j as int - 1)) {
                    assert(a == i as int && b == j as int - 1);
                }
            }
        } else {
            if beads_ok_upto(s, gs, i as int, j as int) {
                assert(beads_ok_upto(s, gs, i as int, j as int - 1));
                assert(spec_run(s, gs, i, (j - 1) as nat) is Ok);
                assert(spec_bead(s.residues@[i as int].atoms@, gs[j as int - 1].items) is Ok);
                assert(spec_run(s, gs, i, j) is Ok);
            }
        }
    }
}

/// A whole run succeeds exactly when every bead of every residue succeeds.
pub proof fn lemma_aggregate_ok_iff(s: Structure, gs: Seq<GroupQ>)
    ensures
        spec_aggregate(s, gs) is Ok <==> forall|a: int, b: int|
            0 <= a < s.residues@.len() && 0 <= b < gs.len() ==> (#[trigger] spec_bead(
                s.residues@[a].atoms@,
                gs[b].items,
            )) is Ok,
{
    lemma_run_ok_iff(s, gs, s.residues@.len() as nat, 0);
}

/// Fail-fast with the first error: when every earlier bead succeeds and the
/// bead at `(i, j)` fails, the whole run fails with that bead's error.
pub proof fn lemma_first_error(s: Structure, gs: Seq<GroupQ>, i: int, j: int)
    requires
        0 <= i < s.residues@.len(),
        0 <= j < gs.len(),
        beads_ok_upto(s, gs, i, j),
        spec_bead(s.residues@[i].atoms@, gs[j].items) is Err,
    ensures
        spec_aggregate(s, gs) == Err::<Seq<crate::structure::PAtomQ>, AggregateError>(
            spec_bead(s.residues@[i].atoms@, gs[j].items)->Err_0,
        ),
{
    lemma_run_ok_iff(s, gs, i as nat, j as nat);
    assert(spec_run(s, gs, i as nat, (j + 1) as nat) is Err);
    lemma_run_err(s, gs, i as nat, (j + 1) as nat, s.residues@.len() as nat, 0);
}

/// Fatal on missing atom: a bead that references an atom name absent from a
/// residue makes the whole run fail — no output structure exists.
pub proof fn lemma_missing_atom_fatal(s: Structure, gs: Seq<GroupQ>, i: int, j: int, k: int)
    requires
        0 <= i < s.residues@.len(),
        0 <= j < gs.len(),
        0 <= k < gs[j].items.len(),
        spec_lookup(s.residues@[i].atoms@, gs[j].items[k].0) is None,
    ensures
        spec_aggregate(s, gs) is Err,
{
    lemma_accum_fold(s.residues@[i].atoms@, gs[j].items);
    assert(spec_bead(s.residues@[i].atoms@, gs[j].items) is Err);
    lemma_aggregate_ok_iff(s, gs);
}

/// Fatal on zero mass: a bead whose listed masses sum to the zero rational
/// makes the whole run fail — no centroid is ever divided by zero.
pub proof fn lemma_zero_mass_fatal(s: Structure, gs: Seq<GroupQ>, i: int, j: int)
    requires
        0 <= i < s.residues@.len(),
        0 <= j < gs.len(),
        q_total(masses_of(gs[j].items)).n == 0,
    ensures
        spec_aggregate(s, gs) is Err,
{
    lemma_accum_fold(s.residues@[i].atoms@, gs[j].items);
    assert(spec_bead(s.residues@[i].atoms@, gs[j].items) is Err);
    lemma_aggregate_ok_iff(s, gs);
}

/// On success a run has emitted one pseudo-atom per processed (residue,
/// bead) pair, numbered sequentially from one in emission order.
proof fn lemma_run_numbers(s: Structure, gs: Seq<GroupQ>, i: nat, j: nat)
    requires
        j <= gs.len(),
    ensures
        spec_run(s, gs, i, j) matches Ok(out) ==> {
            &&& out.len() == i * gs.len() + j
            &&& forall|k: int| 0 <= k < out.len() ==> (#[trigger] out[k]).atom_number == k + 1
        },
    decreases i, j,
{
    if i == 0 && j == 0 {
        nl_unit(gs.len() as int);
    } else if j == 0 {
        lemma_run_numbers(s, gs, (i - 1) as nat, gs.len());
        assert((i as int) * (gs.len() as int) == (i as int - 1) * (gs.len() as int)
            + gs.len()) by (nonlinear_arith);
    } else {
        lemma_run_numbers(s, gs, i, (j - 1) as nat);
    }
}

/// Atom-number sequencing: a successful whole run emits exactly
/// `residues * beads` pseudo-atoms whose atom numbers are `1, 2, ...` in
/// emission order, with no gaps and no repeats.
pub proof fn lemma_atom_numbers(s: Structure, gs: Seq<GroupQ>)
    ensures
        spec_aggregate(s, gs) matches Ok(out) ==> {
            &&& out.len() == s.residues@.len() * gs.len()
            &&& forall|k: int| 0 <= k < out.len() ==> (#[trigger] out[k]).atom_number == k + 1
        },
{
    lemma_run_numbers(s, gs, s.residues@.len() as nat, 0);
}

} // verus!
