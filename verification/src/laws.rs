//! The general laws the library promises, stated over the same models its
//! contracts use and proved once and for all.

use vstd::prelude::*;

use crate::kinematics::CompiledFunction;
use crate::kinematics::Function;
use crate::kinematics::PolyV;
use crate::kinematics::TermV;
use crate::kinematics::ceval;
use crate::kinematics::coeffs_of;
use crate::kinematics::compiled_matches;
use crate::kinematics::diff_term;
use crate::kinematics::diff_terms;
use crate::kinematics::fn_eval;
use crate::kinematics::fn_equiv;
use crate::kinematics::fn_has_const;
use crate::kinematics::fn_shiftv_rel;
use crate::kinematics::lemma_fn_equiv_eval;
use crate::kinematics::shift_vert_terms;
use crate::kinematics::int_term;
use crate::kinematics::int_terms;
use crate::kinematics::lemma_compiled_eval;
use crate::kinematics::peval;
use crate::kinematics::peval_from;
use crate::kinematics::poly_wf;
use crate::kinematics::u_div;
use crate::kinematics::u_mul;
use crate::kinematics::u_one;
use crate::kinematics::u_pow;
use crate::physics::Ball;
use crate::physics::ball_vx_at;
use crate::physics::ball_vy_at;
use crate::physics::collide_a;
use crate::physics::collide_b;
use crate::physics::collision_outcome_v;
use crate::physics::pair_approaching;
use crate::physics::pair_ps;
use crate::rational::Frac;
use crate::rational::lemma_q_add_cong;
use crate::rational::lemma_q_mul_cong;
use crate::rational::lemma_q_ops_wf;
use crate::rational::lemma_q_pow_wf;
use crate::rational::q_add;
use crate::rational::q_div;
use crate::rational::q_eq;
use crate::rational::q_int;
use crate::rational::q_mul;
use crate::rational::q_neg;
use crate::rational::q_pow;
use crate::rational::lemma_q_eq_trans;
use crate::rational::q_sub;
use crate::rational::q_wf;

verus! {

/// Dimension algebra group law: dividing a product of unit vectors by one
/// factor gives back the other, exactly and componentwise.
pub proof fn lemma_units_mul_div_cancel(a: Seq<int>, b: Seq<int>)
    requires
        a.len() == b.len(),
    ensures
        u_div(u_mul(a, b), b) == a,
{
    assert(u_div(u_mul(a, b), b) =~= a);
}

/// Dimension algebra commutativity: multiplication of unit vectors does
/// not depend on the order of its operands.
pub proof fn lemma_units_mul_comm(a: Seq<int>, b: Seq<int>)
    requires
        a.len() == b.len(),
    ensures
        u_mul(a, b) == u_mul(b, a),
{
    assert(u_mul(a, b) =~= u_mul(b, a));
}

/// Dimension algebra identity: the zeroth power of any unit vector is the
/// dimensionless vector, and multiplying by it changes nothing.
pub proof fn lemma_units_pow_zero(a: Seq<int>)
    ensures
        u_pow(a, 0) == u_one(a.len()),
        u_mul(a, u_one(a.len())) == a,
{
    assert(u_pow(a, 0) =~= u_one(a.len()));
    assert(u_mul(a, u_one(a.len())) =~= a);
}

/// Soft updates are idempotent: any two evaluators compiled from the same
/// symbolic function behave identically on every input, so recompiling
/// without a hard update in between changes nothing observable.
pub proof fn lemma_soft_update_idempotent(
    f: Function,
    c1: CompiledFunction,
    c2: CompiledFunction,
    x: Frac,
)
    requires
        compiled_matches(f, c1),
        compiled_matches(f, c2),
    ensures
        ceval(c1, x) == ceval(c2, x),
{
    lemma_compiled_eval(f, c1, x);
    lemma_compiled_eval(f, c2, x);
    assert(ceval(c1, x) == fn_eval(f, x));
}

/// Elastic collision of equal masses: the two bodies exactly swap their
/// entry velocities (as rational values), the classic head-on outcome.
pub proof fn lemma_equal_mass_swap(m: Frac, v1: Frac, v2: Frac)
    requires
        q_wf(m),
        m.n > 0,
        q_wf(v1),
        q_wf(v2),
    ensures
        q_eq(collide_a(m, m, v1, v2), v2),
        q_eq(collide_b(m, m, v1, v2), v1),
{
    let msum = q_add(m, m);
    let mdiff = q_sub(m, m);
    assert(mdiff.n == 0) by (nonlinear_arith)
        requires
            mdiff.n == m.n * m.d + (-m.n) * m.d,
    ;
    assert(msum.n == m.n * m.d + m.n * m.d && msum.d == m.d * m.d);
    assert(msum.n > 0 && msum.d >= 1) by (nonlinear_arith)
        requires
            m.n > 0,
            m.d >= 1,
            msum.n == m.n * m.d + m.n * m.d,
            msum.d == m.d * m.d,
    ;
    let aa = q_div(q_mul(q_mul(q_int(2), m), v2), msum);
    let qd = q_div(mdiff, msum);
    assert(qd.n == 0) by (nonlinear_arith)
        requires
            mdiff.n == 0,
            qd.n == mdiff.n * msum.d,
    ;
    let b2 = q_mul(qd, v1);
    assert(b2.n == 0) by (nonlinear_arith)
        requires
            qd.n == 0,
            b2.n == qd.n * v1.n,
    ;
    assert(aa.n == ((2 * m.n) * v2.n) * msum.d && aa.d == ((1 * m.d) * v2.d) * msum.n);
    assert(aa.n * v2.d == v2.n * aa.d) by (nonlinear_arith)
        requires
            m.n > 0,
            m.d >= 1,
            v2.d >= 1,
            msum.n == m.n * m.d + m.n * m.d,
            msum.d == m.d * m.d,
            aa.n == ((2 * m.n) * v2.n) * msum.d,
            aa.d == ((1 * m.d) * v2.d) * msum.n,
    ;
    let ca = q_add(aa, b2);
    assert(collide_a(m, m, v1, v2) == ca);
    assert(ca.n == aa.n * b2.d + b2.n * aa.d && ca.d == aa.d * b2.d);
    assert(ca.n * v2.d == v2.n * ca.d) by (nonlinear_arith)
        requires
            b2.n == 0,
            ca.n == aa.n * b2.d + b2.n * aa.d,
            ca.d == aa.d * b2.d,
            aa.n * v2.d == v2.n * aa.d,
    ;
    assert(q_eq(collide_a(m, m, v1, v2), v2));
    let ba = q_div(q_mul(q_mul(q_int(2), m), v1), msum);
    let bb = q_mul(qd, v2);
    assert(bb.n == 0) by (nonlinear_arith)
        requires
            qd.n == 0,
            bb.n == qd.n * v2.n,
    ;
    assert(ba.n == ((2 * m.n) * v1.n) * msum.d && ba.d == ((1 * m.d) * v1.d) * msum.n);
    assert(ba.n * v1.d == v1.n * ba.d) by (nonlinear_arith)
        requires
            m.n > 0,
            m.d >= 1,
            v1.d >= 1,
            msum.n == m.n * m.d + m.n * m.d,
            msum.d == m.d * m.d,
            ba.n == ((2 * m.n) * v1.n) * msum.d,
            ba.d == ((1 * m.d) * v1.d) * msum.n,
    ;
    let cb = q_sub(ba, bb);
    assert(collide_b(m, m, v1, v2) == cb);
    assert(cb.n == ba.n * bb.d + (-bb.n) * ba.d && cb.d == ba.d * bb.d);
    assert(cb.n * v1.d == v1.n * cb.d) by (nonlinear_arith)
        requires
            bb.n == 0,
            cb.n == ba.n * bb.d + (-bb.n) * ba.d,
            cb.d == ba.d * bb.d,
            ba.n * v1.d == v1.n * ba.d,
    ;
    assert(q_eq(collide_b(m, m, v1, v2), v1));
}

/// Dividing by an equal copy of a factor cancels it.
proof fn lemma_q_div_cancel(a: Frac, b: Frac, l: Frac, z: Frac)
    requires
        q_wf(a),
        q_wf(b),
        q_wf(l),
        q_wf(z),
        b.n > 0,
        l.n > 0,
        q_eq(a, q_mul(z, l)),
        q_eq(b, l),
    ensures
        q_eq(q_div(a, b), z),
{
    assert((a.n * b.d) * z.d == z.n * (a.d * b.n)) by (nonlinear_arith)
        requires
            a.n * (z.d * l.d) == (z.n * l.n) * a.d,
            b.n * l.d == l.n * b.d,
            b.n > 0,
            l.n > 0,
            a.d >= 1,
            b.d >= 1,
            l.d >= 1,
            z.d >= 1,
    ;
}

/// Head-on elastic collision of equal masses at full restitution: ball
/// `j` straight in the +x direction from ball `i`, the two coming in at
/// `(+v, 0)` and `(-v, 0)` — the pair is genuinely approaching, and the
/// resolved outcome swaps the two X velocities exactly while both Y
/// velocities are unchanged.
#[verifier::rlimit(100)]
pub proof fn lemma_head_on_equal_mass_outcome(b1: Ball, b2: Ball, e: Frac, m: Frac, v: Frac)
    requires
        b1.spec_mass()@ == m,
        b2.spec_mass()@ == m,
        q_wf(m),
        m.n > 0,
        q_wf(v),
        v.n > 0,
        q_eq(b1.spec_free_bounce()@, q_int(1)),
        q_eq(b2.spec_free_bounce()@, q_int(1)),
        q_wf(b1.spec_free_bounce()@),
        q_wf(b2.spec_free_bounce()@),
        q_wf(b1.spec_x()@),
        q_wf(b2.spec_x()@),
        q_wf(b1.spec_y()@),
        q_wf(b2.spec_y()@),
        q_sub(b2.spec_y()@, b1.spec_y()@).n == 0,
        q_sub(b2.spec_x()@, b1.spec_x()@).n > 0,
        ball_vx_at(b1, e) == Some(v),
        ball_vx_at(b2, e) == Some(q_neg(v)),
        ball_vy_at(b1, e) is Some,
        ball_vy_at(b1, e)->Some_0.n == 0,
        q_wf(ball_vy_at(b1, e)->Some_0),
        ball_vy_at(b2, e) is Some,
        ball_vy_at(b2, e)->Some_0.n == 0,
        q_wf(ball_vy_at(b2, e)->Some_0),
    ensures
        pair_approaching(b1, b2, e),
        q_eq(collision_outcome_v(b1, b2, e).0, q_neg(v)),
        q_eq(collision_outcome_v(b1, b2, e).1, ball_vy_at(b1, e)->Some_0),
        q_eq(collision_outcome_v(b1, b2, e).2, v),
        q_eq(collision_outcome_v(b1, b2, e).3, ball_vy_at(b2, e)->Some_0),
{
    let dx = q_sub(b2.spec_x()@, b1.spec_x()@);
    let dy = q_sub(b2.spec_y()@, b1.spec_y()@);
    let l2 = q_add(q_mul(dx, dx), q_mul(dy, dy));
    let v1y = ball_vy_at(b1, e)->Some_0;
    let v2y = ball_vy_at(b2, e)->Some_0;
    let p1 = pair_ps(b1, b2, e).0;
    let p2 = pair_ps(b1, b2, e).1;
    let fb1 = b1.spec_free_bounce()@;
    let fb2 = b2.spec_free_bounce()@;
    lemma_q_ops_wf(b2.spec_x()@, b1.spec_x()@);
    lemma_q_ops_wf(b2.spec_y()@, b1.spec_y()@);
    lemma_q_ops_wf(v, dx);
    lemma_q_ops_wf(v1y, dy);
    lemma_q_ops_wf(v2y, dy);
    lemma_q_ops_wf(q_neg(v), dx);
    lemma_q_ops_wf(q_mul(v, dx), q_mul(v1y, dy));
    lemma_q_ops_wf(q_mul(q_neg(v), dx), q_mul(v2y, dy));
    assert(p1 == q_add(q_mul(v, dx), q_mul(v1y, dy)));
    assert(p2 == q_add(q_mul(q_neg(v), dx), q_mul(v2y, dy)));
    let vdx = q_mul(v, dx);
    assert(p1.n * vdx.d == vdx.n * p1.d && p1.n > 0) by (nonlinear_arith)
        requires
            p1.n == (v.n * dx.n) * (v1y.d * dy.d) + (v1y.n * dy.n) * (v.d * dx.d),
            p1.d == (v.d * dx.d) * (v1y.d * dy.d),
            vdx.n == v.n * dx.n,
            vdx.d == v.d * dx.d,
            v1y.n == 0,
            dy.n == 0,
            v.n > 0,
            dx.n > 0,
            v.d >= 1,
            dx.d >= 1,
            v1y.d >= 1,
            dy.d >= 1,
    ;
    assert(p2.n * vdx.d == (-vdx.n) * p2.d && p2.n < 0) by (nonlinear_arith)
        requires
            p2.n == ((-v.n) * dx.n) * (v2y.d * dy.d) + (v2y.n * dy.n) * (v.d * dx.d),
            p2.d == (v.d * dx.d) * (v2y.d * dy.d),
            vdx.n == v.n * dx.n,
            vdx.d == v.d * dx.d,
            v2y.n == 0,
            dy.n == 0,
            v.n > 0,
            dx.n > 0,
            v.d >= 1,
            dx.d >= 1,
            v2y.d >= 1,
            dy.d >= 1,
    ;
    assert(q_eq(p1, vdx) && q_eq(p2, q_neg(vdx)));
    assert(p2.n * p1.d < p1.n * p2.d) by (nonlinear_arith)
        requires
            p1.n > 0,
            p2.n < 0,
            p1.d >= 1,
            p2.d >= 1,
    ;
    assert(pair_approaching(b1, b2, e));
    lemma_equal_mass_swap(m, p1, p2);
    // well-formedness of the elastic outcomes
    let msum = q_add(m, m);
    assert(msum.n > 0 && msum.d >= 1) by (nonlinear_arith)
        requires
            msum.n == m.n * m.d + m.n * m.d,
            msum.d == m.d * m.d,
            m.n > 0,
            m.d >= 1,
    ;
    lemma_q_ops_wf(q_int(2), m);
    lemma_q_ops_wf(q_mul(q_int(2), m), p2);
    lemma_q_ops_wf(q_mul(q_mul(q_int(2), m), p2), msum);
    lemma_q_ops_wf(m, m);
    lemma_q_ops_wf(q_sub(m, m), msum);
    lemma_q_ops_wf(q_div(q_sub(m, m), msum), p1);
    lemma_q_ops_wf(
        q_div(q_mul(q_mul(q_int(2), m), p2), msum),
        q_mul(q_div(q_sub(m, m), msum), p1),
    );
    lemma_q_ops_wf(q_mul(q_int(2), m), p1);
    lemma_q_ops_wf(q_mul(q_mul(q_int(2), m), p1), msum);
    lemma_q_ops_wf(q_div(q_sub(m, m), msum), p2);
    lemma_q_ops_wf(
        q_div(q_mul(q_mul(q_int(2), m), p1), msum),
        q_mul(q_div(q_sub(m, m), msum), p2),
    );
    let ca = collide_a(m, m, p1, p2);
    let cb = collide_b(m, m, p1, p2);
    let p1n = q_mul(ca, fb1);
    let p2n = q_mul(cb, fb2);
    assert(q_wf(ca) && q_wf(cb));
    // full restitution: the bounce factor is denotationally one
    assert(p1n.n * ca.d == ca.n * p1n.d && p1n.d >= 1) by (nonlinear_arith)
        requires
            p1n.n == ca.n * fb1.n,
            p1n.d == ca.d * fb1.d,
            fb1.n == fb1.d,
            fb1.d >= 1,
            ca.d >= 1,
    ;
    assert(p2n.n * cb.d == cb.n * p2n.d && p2n.d >= 1) by (nonlinear_arith)
        requires
            p2n.n == cb.n * fb2.n,
            p2n.d == cb.d * fb2.d,
            fb2.n == fb2.d,
            fb2.d >= 1,
            cb.d >= 1,
    ;
    lemma_q_eq_trans(p1n, ca, p2);
    lemma_q_eq_trans(p2n, cb, p1);
    // the parallel deltas: leaving minus entering parallel component
    let d1 = q_sub(p1n, p1);
    let d2 = q_sub(p2n, p2);
    let m2i = q_int(-2);
    let two = q_int(2);
    assert(d1.n * vdx.d == (-2 * vdx.n) * d1.d) by (nonlinear_arith)
        requires
            p1n.n * p2.d == p2.n * p1n.d,
            p2.n * vdx.d == (-vdx.n) * p2.d,
            p1.n * vdx.d == vdx.n * p1.d,
            p1n.d >= 1,
            p1.d >= 1,
            p2.d >= 1,
            vdx.d >= 1,
            d1.n == p1n.n * p1.d + (-p1.n) * p1n.d,
            d1.d == p1n.d * p1.d,
    ;
    assert(d2.n * vdx.d == (2 * vdx.n) * d2.d) by (nonlinear_arith)
        requires
            p2n.n * p1.d == p1.n * p2n.d,
            p2.n * vdx.d == (-vdx.n) * p2.d,
            p1.n * vdx.d == vdx.n * p1.d,
            p2n.d >= 1,
            p1.d >= 1,
            p2.d >= 1,
            vdx.d >= 1,
            d2.n == p2n.n * p2.d + (-p2.n) * p2n.d,
            d2.d == p2n.d * p2.d,
    ;
    lemma_q_ops_wf(p1n, p1);
    lemma_q_ops_wf(p2n, p2);
    // the squared distance is an equal copy of dx squared
    let dxx = q_mul(dx, dx);
    assert(l2.n * dxx.d == dxx.n * l2.d && l2.n > 0 && l2.d >= 1 && dxx.n > 0 && dxx.d >= 1)
        by (nonlinear_arith)
        requires
            l2.n == (dx.n * dx.n) * (dy.d * dy.d) + (dy.n * dy.n) * (dx.d * dx.d),
            l2.d == (dx.d * dx.d) * (dy.d * dy.d),
            dxx.n == dx.n * dx.n,
            dxx.d == dx.d * dx.d,
            dy.n == 0,
            dx.n > 0,
            dx.d >= 1,
            dy.d >= 1,
    ;
    // X components: the quotient collapses to the swapped velocity delta
    let t1 = q_div(q_mul(d1, dx), l2);
    let t2 = q_div(q_mul(d2, dx), l2);
    lemma_q_ops_wf(d1, dx);
    lemma_q_ops_wf(d2, dx);
    lemma_q_ops_wf(m2i, v);
    lemma_q_ops_wf(two, v);
    let md1 = q_mul(d1, dx);
    let md2 = q_mul(d2, dx);
    assert(md1.n * (q_mul(m2i, v).d * dxx.d) == (q_mul(m2i, v).n * dxx.n) * md1.d)
        by (nonlinear_arith)
        requires
            d1.n * (v.d * dx.d) == (-2 * (v.n * dx.n)) * d1.d,
            md1.n == d1.n * dx.n,
            md1.d == d1.d * dx.d,
            q_mul(m2i, v).n == (-2) * v.n,
            q_mul(m2i, v).d == 1 * v.d,
            dxx.n == dx.n * dx.n,
            dxx.d == dx.d * dx.d,
            d1.d >= 1,
            v.d >= 1,
            dx.d >= 1,
    ;
    assert(md2.n * (q_mul(two, v).d * dxx.d) == (q_mul(two, v).n * dxx.n) * md2.d)
        by (nonlinear_arith)
        requires
            d2.n * (v.d * dx.d) == (2 * (v.n * dx.n)) * d2.d,
            md2.n == d2.n * dx.n,
            md2.d == d2.d * dx.d,
            q_mul(two, v).n == 2 * v.n,
            q_mul(two, v).d == 1 * v.d,
            dxx.n == dx.n * dx.n,
            dxx.d == dx.d * dx.d,
            d2.d >= 1,
            v.d >= 1,
            dx.d >= 1,
    ;
    assert(q_eq(md1, q_mul(q_mul(m2i, v), dxx)));
    assert(q_eq(md2, q_mul(q_mul(two, v), dxx)));
    lemma_q_div_cancel(md1, l2, dxx, q_mul(m2i, v));
    lemma_q_div_cancel(md2, l2, dxx, q_mul(two, v));
    lemma_q_ops_wf(md1, l2);
    lemma_q_ops_wf(md2, l2);
    assert(q_add(v, t1).n * v.d == (-v.n) * q_add(v, t1).d) by (nonlinear_arith)
        requires
            t1.n * (1 * v.d) == ((-2) * v.n) * t1.d,
            q_add(v, t1).n == v.n * t1.d + t1.n * v.d,
            q_add(v, t1).d == v.d * t1.d,
            t1.d >= 1,
            v.d >= 1,
    ;
    assert(q_add(q_neg(v), t2).n * v.d == v.n * q_add(q_neg(v), t2).d) by (nonlinear_arith)
        requires
            t2.n * (1 * v.d) == (2 * v.n) * t2.d,
            q_add(q_neg(v), t2).n == (-v.n) * t2.d + t2.n * v.d,
            q_add(q_neg(v), t2).d == v.d * t2.d,
            t2.d >= 1,
            v.d >= 1,
    ;
    // Y components: the delta projects onto a zero-numerator direction
    let u1 = q_div(q_mul(d1, dy), l2);
    let u2 = q_div(q_mul(d2, dy), l2);
    assert(u1.n == 0 && u2.n == 0) by (nonlinear_arith)
        requires
            u1.n == (d1.n * dy.n) * l2.d,
            u2.n == (d2.n * dy.n) * l2.d,
            dy.n == 0,
            l2.n > 0,
    ;
    lemma_q_ops_wf(d1, dy);
    lemma_q_ops_wf(d2, dy);
    lemma_q_ops_wf(q_mul(d1, dy), l2);
    lemma_q_ops_wf(q_mul(d2, dy), l2);
    assert(q_add(v1y, u1).n * v1y.d == v1y.n * q_add(v1y, u1).d) by (nonlinear_arith)
        requires
            u1.n == 0,
            q_add(v1y, u1).n == v1y.n * u1.d + u1.n * v1y.d,
            q_add(v1y, u1).d == v1y.d * u1.d,
            u1.d >= 1,
            v1y.d >= 1,
    ;
    assert(q_add(v2y, u2).n * v2y.d == v2y.n * q_add(v2y, u2).d) by (nonlinear_arith)
        requires
            u2.n == 0,
            q_add(v2y, u2).n == v2y.n * u2.d + u2.n * v2y.d,
            q_add(v2y, u2).d == v2y.d * u2.d,
            u2.d >= 1,
            v2y.d >= 1,
    ;
    assert(collision_outcome_v(b1, b2, e).0 == q_add(v, t1));
    assert(collision_outcome_v(b1, b2, e).1 == q_add(v1y, u1));
    assert(collision_outcome_v(b1, b2, e).2 == q_add(q_neg(v), t2));
    assert(collision_outcome_v(b1, b2, e).3 == q_add(v2y, u2));
}

/// Differentiating the integral gives back, term by term, a list of the
/// same exponents and unit coefficients whose coefficients are the
/// original ones multiplied and divided by the same positive integer.
proof fn lemma_diff_int_terms(ts: Seq<TermV>, c: Frac, fu: Seq<int>, vu: Seq<int>)
    requires
        forall|i: int| 0 <= i < ts.len() ==> (#[trigger] ts[i]).e == i,
    ensures
        diff_terms(int_terms(ts, c, fu, vu)).len() == ts.len(),
        forall|i: int|
            0 <= i < ts.len() ==> #[trigger] diff_terms(int_terms(ts, c, fu, vu))[i] == diff_term(
                int_term(ts[i]),
            ),
    decreases ts.len(),
{
    let its = int_terms(ts, c, fu, vu);
    if ts.len() == 0 {
        assert(its =~= seq![TermV { c: c, u: u_mul(fu, vu), e: 0 }]);
        assert(its.last().e == 0);
        assert(diff_terms(its) =~= diff_terms(its.drop_last()));
        assert(its.drop_last() =~= Seq::<TermV>::empty());
    } else {
        let front = ts.drop_last();
        assert(forall|i: int| 0 <= i < front.len() ==> (#[trigger] front[i]).e == i);
        lemma_diff_int_terms(front, c, fu, vu);
        assert(its.drop_last() =~= int_terms(front, c, fu, vu));
        assert(its.last() == int_term(ts.last()));
        assert(ts.last().e == ts.len() - 1);
        assert(its.last().e == ts.len() as int);
        assert(diff_terms(its) == diff_terms(int_terms(front, c, fu, vu)).push(
            diff_term(its.last()),
        ));
        assert forall|i: int|
            0 <= i < ts.len() implies #[trigger] diff_terms(int_terms(ts, c, fu, vu))[i]
            == diff_term(int_term(ts[i])) by {
            if i < ts.len() - 1 {
                assert(front[i] == ts[i]);
            }
        }
    }
}

/// Dividing and then multiplying a well-formed rational by the same
/// positive integer gives back an equal rational.
proof fn lemma_q_div_mul_cancel(c: Frac, k: int)
    requires
        q_wf(c),
        k >= 1,
    ensures
        q_eq(q_mul(q_div(c, q_int(k)), q_int(k)), c),
        q_wf(q_mul(q_div(c, q_int(k)), q_int(k))),
{
    assert(q_eq(q_mul(q_div(c, q_int(k)), q_int(k)), c) && q_wf(
        q_mul(q_div(c, q_int(k)), q_int(k)),
    )) by (nonlinear_arith)
        requires
            c.d >= 1,
            k >= 1,
    ;
}

/// Evaluation of a dense coefficient list is well formed when everything
/// in it is.
proof fn lemma_peval_wf(cs: Seq<Frac>, x: Frac, i: int)
    requires
        q_wf(x),
        forall|j: int| 0 <= j < cs.len() ==> q_wf(#[trigger] cs[j]),
    ensures
        q_wf(peval_from(cs, x, i)),
    decreases cs.len() - i,
{
    if 0 <= i < cs.len() {
        lemma_peval_wf(cs, x, i + 1);
        lemma_q_pow_wf(x, i as nat);
        lemma_q_ops_wf(cs[i], q_pow(x, i as nat));
        lemma_q_ops_wf(q_mul(cs[i], q_pow(x, i as nat)), peval_from(cs, x, i + 1));
    }
}

/// Two coefficient lists that are pointwise equal as rationals evaluate
/// to equal rationals at every input.
proof fn lemma_peval_cong(cs1: Seq<Frac>, cs2: Seq<Frac>, x: Frac, i: int)
    requires
        cs1.len() == cs2.len(),
        q_wf(x),
        forall|j: int| 0 <= j < cs1.len() ==> q_wf(#[trigger] cs1[j]),
        forall|j: int| 0 <= j < cs2.len() ==> q_wf(#[trigger] cs2[j]),
        forall|j: int| 0 <= j < cs1.len() ==> q_eq(#[trigger] cs1[j], cs2[j]),
    ensures
        q_eq(peval_from(cs1, x, i), peval_from(cs2, x, i)),
    decreases cs1.len() - i,
{
    if i < 0 || i >= cs1.len() {
    } else {
        lemma_peval_cong(cs1, cs2, x, i + 1);
        lemma_q_pow_wf(x, i as nat);
        lemma_q_mul_cong(cs1[i], cs2[i], q_pow(x, i as nat), q_pow(x, i as nat));
        lemma_q_ops_wf(cs1[i], q_pow(x, i as nat));
        lemma_q_ops_wf(cs2[i], q_pow(x, i as nat));
        lemma_peval_wf(cs1, x, i + 1);
        lemma_peval_wf(cs2, x, i + 1);
        lemma_q_add_cong(
            q_mul(cs1[i], q_pow(x, i as nat)),
            q_mul(cs2[i], q_pow(x, i as nat)),
            peval_from(cs1, x, i + 1),
            peval_from(cs2, x, i + 1),
        );
    }
}

/// Differentiation inverts integration, up to the integration constant:
/// for any well-formed polynomial, integrating with any constant and then
/// differentiating gives a polynomial that evaluates to an equal rational
/// at every input.
pub proof fn lemma_diff_int_inverse(p: PolyV, c: Frac, x: Frac)
    requires
        poly_wf(p),
        q_wf(c),
        q_wf(x),
    ensures
        q_eq(
            peval(coeffs_of(diff_terms(int_terms(p.terms, c, p.fu, p.vu))), x),
            peval(coeffs_of(p.terms), x),
        ),
{
    lemma_diff_int_terms(p.terms, c, p.fu, p.vu);
    let dts = diff_terms(int_terms(p.terms, c, p.fu, p.vu));
    assert forall|j: int|
        0 <= j < p.terms.len() implies q_eq(
        #[trigger] coeffs_of(dts)[j],
        coeffs_of(p.terms)[j],
    ) && q_wf(coeffs_of(dts)[j]) && q_wf(coeffs_of(p.terms)[j]) by {
        assert(dts[j] == diff_term(int_term(p.terms[j])));
        assert(p.terms[j].e == j);
        assert(dts[j].c == q_mul(q_div(p.terms[j].c, q_int(j + 1)), q_int(j + 1)));
        lemma_q_div_mul_cancel(p.terms[j].c, j + 1);
    }
    lemma_peval_cong(coeffs_of(dts), coeffs_of(p.terms), x, 0);
}

/// Evaluation from index `i` depends only on the coefficients from `i` on.
proof fn lemma_peval_from_agree(cs1: Seq<Frac>, cs2: Seq<Frac>, x: Frac, i: int)
    requires
        cs1.len() == cs2.len(),
        forall|j: int| i <= j < cs1.len() ==> cs1[j] == cs2[j],
    ensures
        peval_from(cs1, x, i) == peval_from(cs2, x, i),
    decreases cs1.len() - i,
{
    if 0 <= i < cs1.len() {
        lemma_peval_from_agree(cs1, cs2, x, i + 1);
    }
}

/// Vertical shifting adds the delta to the function's value exactly once,
/// at every input: the delta lands on one constant term only.
pub proof fn lemma_shift_vert_value(f: Function, g: Function, delta: Frac, x: Frac)
    requires
        fn_shiftv_rel(f, g, delta),
        fn_has_const(f),
    ensures
        fn_eval(g, x) == q_add(fn_eval(f, x), delta),
    decreases f,
{
    match f {
        Function::Polynomial(p) => {
            match g {
                Function::Polynomial(q) => {
                    let ts = p@.terms;
                    let nts = shift_vert_terms(ts, delta);
                    let cs = coeffs_of(ts);
                    let ncs = coeffs_of(nts);
                    assert(ncs.len() == cs.len());
                    assert(forall|j: int| 1 <= j < cs.len() ==> ncs[j] == cs[j]);
                    lemma_peval_from_agree(ncs, cs, x, 1);
                    assert(ncs[0] == q_add(cs[0], delta));
                    assert(q_pow(x, 0) == q_int(1));
                    let tt = q_mul(cs[0], q_int(1));
                    let tn = q_mul(q_add(cs[0], delta), q_int(1));
                    assert(tn.n == tt.n * delta.d + delta.n * tt.d && tn.d == tt.d * delta.d)
                        by (nonlinear_arith)
                        requires
                            tn.n == (cs[0].n * delta.d + delta.n * cs[0].d) * 1,
                            tn.d == (cs[0].d * delta.d) * 1,
                            tt.n == cs[0].n * 1,
                            tt.d == cs[0].d * 1,
                    ;
                    assert(tn == q_add(tt, delta));
                    let rest = peval_from(cs, x, 1);
                    assert(peval_from(ncs, x, 0) == q_add(tn, rest));
                    assert(peval_from(cs, x, 0) == q_add(tt, rest));
                    crate::rational::lemma_q_add_assoc(tt, delta, rest);
                    crate::rational::lemma_q_add_comm(delta, rest);
                    crate::rational::lemma_q_add_assoc(tt, rest, delta);
                    assert(q_add(q_add(tt, delta), rest) == q_add(q_add(tt, rest), delta));
                },
                _ => {
                },
            }
        },
        Function::Sum(s) => {
            match g {
                Function::Sum(t) => {
                    lemma_fn_equiv_eval(*s.f1, *t.f1, x);
                    lemma_shift_vert_value(*s.f2, *t.f2, delta, x);
                    crate::rational::lemma_q_add_assoc(
                        fn_eval(*s.f1, x),
                        fn_eval(*s.f2, x),
                        delta,
                    );
                },
                _ => {
                },
            }
        },
    }
}

} // verus!
