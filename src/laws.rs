use crate::bigint::{isqrt, lemma_isqrt_bounds};
use crate::body::{lemma_cube_zero, pull, q_cube_approx};
use crate::rational::{
    canon, lemma_canon, q_add, q_div, q_mul, q_neg, q_sub, reduced, same_value,
};
use crate::vector::{
    lemma_canon_sign, lemma_squared_norm_nonneg, v_add, v_magnitude_approx, v_neg, v_reduced, v_same,
    v_squared_norm, v_sub, V3,
};
use vstd::prelude::*;

verus! {

/// `a - b` equals `-(b - a)` as a rational, for fractions in least terms.
pub proof fn lemma_q_sub_antisymmetric(a: (int, int), b: (int, int))
    requires
        reduced(a),
        reduced(b),
    ensures
        same_value(q_sub(a, b), q_neg(q_sub(b, a))),
{
    let d = a.1 * b.1;
    assert(d > 0 && b.1 * a.1 == d) by (nonlinear_arith)
        requires
            a.1 > 0,
            b.1 > 0,
            d == a.1 * b.1,
    ;
    let n = a.0 * b.1 - b.0 * a.1;
    lemma_canon(n, d);
    lemma_canon(-n, d);
    let x = q_sub(a, b);
    let y = q_sub(b, a);
    assert(y == canon(-n, d));
    assert(x.0 * y.1 == (-y.0) * x.1) by (nonlinear_arith)
        requires
            x.0 * d == n * x.1,
            y.0 * d == (-n) * y.1,
            d > 0,
    ;
}

/// `(a + b) - b` equals `a` as a rational, for fractions in least terms.
pub proof fn lemma_q_add_sub_cancel(a: (int, int), b: (int, int))
    requires
        reduced(a),
        reduced(b),
    ensures
        same_value(q_sub(q_add(a, b), b), a),
{
    let d = a.1 * b.1;
    assert(d > 0) by (nonlinear_arith)
        requires
            a.1 > 0,
            b.1 > 0,
            d == a.1 * b.1,
    ;
    let n = a.0 * b.1 + b.0 * a.1;
    lemma_canon(n, d);
    let s = q_add(a, b);
    let e = s.1 * b.1;
    assert(e > 0) by (nonlinear_arith)
        requires
            s.1 > 0,
            b.1 > 0,
            e == s.1 * b.1,
    ;
    let m = s.0 * b.1 - b.0 * s.1;
    lemma_canon(m, e);
    let t = q_sub(s, b);
    assert(s.0 * b.1 * a.1 == n * s.1) by (nonlinear_arith)
        requires
            s.0 * d == n * s.1,
            d == a.1 * b.1,
    ;
    assert(m * a.1 == s.0 * b.1 * a.1 - b.0 * s.1 * a.1) by (nonlinear_arith)
        requires
            m == s.0 * b.1 - b.0 * s.1,
    ;
    assert(n * s.1 - b.0 * s.1 * a.1 == a.0 * e) by (nonlinear_arith)
        requires
            n == a.0 * b.1 + b.0 * a.1,
            e == s.1 * b.1,
    ;
    assert(m * a.1 == a.0 * e);
    assert((t.0 * a.1) * e == (a.0 * t.1) * e) by (nonlinear_arith)
        requires
            t.0 * e == m * t.1,
            m * a.1 == a.0 * e,
    ;
    assert(t.0 * a.1 == a.0 * t.1) by (nonlinear_arith)
        requires
            (t.0 * a.1) * e == (a.0 * t.1) * e,
            e > 0,
    ;
}

/// Vector subtraction is antisymmetric: `a - b` equals `-(b - a)` on every axis.
pub proof fn lemma_sub_antisymmetric(a: V3, b: V3)
    requires
        v_reduced(a),
        v_reduced(b),
    ensures
        v_same(v_sub(a, b), v_neg(v_sub(b, a))),
{
    lemma_q_sub_antisymmetric(a.0, b.0);
    lemma_q_sub_antisymmetric(a.1, b.1);
    lemma_q_sub_antisymmetric(a.2, b.2);
}

/// Adding and then subtracting a vector gives back the start: `a + b - b` equals `a`.
pub proof fn lemma_add_sub_cancel(a: V3, b: V3)
    requires
        v_reduced(a),
        v_reduced(b),
    ensures
        v_same(v_sub(v_add(a, b), b), a),
{
    lemma_q_add_sub_cancel(a.0, b.0);
    lemma_q_add_sub_cancel(a.1, b.1);
    lemma_q_add_sub_cancel(a.2, b.2);
}

/// The approximate magnitude is `r / s` in least terms, where `r` and `s` are
/// the integer square roots of the squared norm's numerator `n` and denominator
/// `d`; so its square `r² / s²` is off from `n / d` only by the truncation of
/// each root: `r² <= n < (r + 1)²` and `s² <= d < (s + 1)²`, with `s >= 1`.
pub proof fn lemma_magnitude_bounds(v: V3)
    requires
        v_reduced(v),
    ensures
        ({
            let n = v_squared_norm(v).0;
            let d = v_squared_norm(v).1;
            let r = isqrt(n as nat) as int;
            let s = isqrt(d as nat) as int;
            &&& 0 <= n && 0 < d
            &&& r * r <= n < (r + 1) * (r + 1)
            &&& s * s <= d < (s + 1) * (s + 1)
            &&& s >= 1
            &&& same_value(v_magnitude_approx(v), (r, s))
        }),
{
    lemma_squared_norm_nonneg(v);
    let n = v_squared_norm(v).0;
    let d = v_squared_norm(v).1;
    lemma_isqrt_bounds(n as nat);
    lemma_isqrt_bounds(d as nat);
    let r = isqrt(n as nat) as int;
    let s = isqrt(d as nat) as int;
    assert(s >= 1) by (nonlinear_arith)
        requires
            d > 0,
            d < (s + 1) * (s + 1),
            s >= 0,
    ;
    lemma_canon(r, s);
    assert(v_magnitude_approx(v) == canon(r, s));
}


/// `a · b` over positive denominators has the sign of `a.0 * b.0`.
proof fn lemma_mul_sign(a: (int, int), b: (int, int))
    requires
        a.1 > 0,
        b.1 > 0,
    ensures
        q_mul(a, b).1 > 0,
        q_mul(a, b).0 > 0 <==> a.0 * b.0 > 0,
        q_mul(a, b).0 == 0 <==> a.0 * b.0 == 0,
        q_mul(a, b).0 < 0 <==> a.0 * b.0 < 0,
{
    assert(a.1 * b.1 > 0) by (nonlinear_arith)
        requires
            a.1 > 0,
            b.1 > 0,
    ;
    lemma_canon_sign(a.0 * b.0, a.1 * b.1);
}

/// On one axis: `(k · d) / c`, with `k < 0` and `c > 0`, has the sign opposite to `d`.
proof fn lemma_axis_attracts(k: (int, int), d: (int, int), c: (int, int))
    requires
        k.0 < 0,
        k.1 > 0,
        d.1 > 0,
        c.0 > 0,
        c.1 > 0,
    ensures
        q_div(q_mul(k, d), c).0 > 0 <==> d.0 < 0,
        q_div(q_mul(k, d), c).0 < 0 <==> d.0 > 0,
        q_div(q_mul(k, d), c).0 == 0 <==> d.0 == 0,
{
    lemma_mul_sign(k, d);
    assert((k.0 * d.0 > 0 <==> d.0 < 0) && (k.0 * d.0 < 0 <==> d.0 > 0) && (k.0 * d.0 == 0
        <==> d.0 == 0)) by (nonlinear_arith)
        requires
            k.0 < 0,
    ;
    let e = q_mul(k, d);
    assert(e.1 * c.0 > 0) by (nonlinear_arith)
        requires
            e.1 > 0,
            c.0 > 0,
    ;
    assert((e.0 * c.1 > 0 <==> e.0 > 0) && (e.0 * c.1 < 0 <==> e.0 < 0) && (e.0 * c.1 == 0
        <==> e.0 == 0)) by (nonlinear_arith)
        requires
            c.1 > 0,
    ;
    lemma_canon_sign(e.0 * c.1, e.1 * c.0);
}

/// Gravity attracts: with a positive constant `g` and a positive mass `m`, the
/// pull that a body at `p` takes from a body at another point `o` has, on every
/// axis, the sign opposite to that axis of `p - o`, so it points toward `o`.
pub proof fn lemma_pull_attracts(p: V3, m: (int, int), g: (int, int), o: V3)
    requires
        v_reduced(p),
        v_reduced(o),
        reduced(m),
        reduced(g),
        m.0 > 0,
        g.0 > 0,
        !v_same(o, p),
    ensures
        ({
            let d = v_sub(p, o);
            let t = pull(p, m, g, o);
            &&& (t.0.0 > 0 <==> d.0.0 < 0) && (t.0.0 < 0 <==> d.0.0 > 0) && (t.0.0 == 0 <==> d.0.0 == 0)
            &&& (t.1.0 > 0 <==> d.1.0 < 0) && (t.1.0 < 0 <==> d.1.0 > 0) && (t.1.0 == 0 <==> d.1.0 == 0)
            &&& (t.2.0 > 0 <==> d.2.0 < 0) && (t.2.0 < 0 <==> d.2.0 > 0) && (t.2.0 == 0 <==> d.2.0 == 0)
        }),
{
    let d = v_sub(p, o);
    lemma_cube_zero(p, o);
    let c = q_cube_approx(d);
    let k = q_mul(q_neg(g), m);
    lemma_mul_sign(q_neg(g), m);
    assert(-g.0 * m.0 < 0) by (nonlinear_arith)
        requires
            g.0 > 0,
            m.0 > 0,
    ;
    lemma_axis_attracts(k, d.0, c);
    lemma_axis_attracts(k, d.1, c);
    lemma_axis_attracts(k, d.2, c);
}

} // verus!
