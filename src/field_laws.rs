//! The algebraic laws of the quadratic-extension engine, stated over the
//! mathematical values of its elements.
use crate::fp::{cong, lemma_cong_add, lemma_cong_mul, lemma_cong_refl_mod};
use crate::fp2::{
    cong2, g_add, g_mul, g_mul_by_v, lemma_cong2_eq, lemma_cong2_ops, lemma_reduced_ops, Fp2Config,
    Fp2Value,
};
use crate::quadratic_extension::{
    frobenius_coherent, lemma_distrib, lemma_frobenius_valid, lemma_g_ring, q_add, q_conjugate, q_frobenius, q_mul, q_one, q_valid, q_zero,
    QuadExtConfig, QuadValue,
};
use vstd::prelude::*;

verus! {

/// Unreduced product of two extension values.
pub open spec fn gq_mul(n: int, x: QuadValue, y: QuadValue) -> QuadValue {
    (
        g_add(g_mul(n, x.0, y.0), g_mul_by_v(n, g_mul(n, x.1, y.1))),
        g_add(g_mul(n, x.0, y.1), g_mul(n, x.1, y.0)),
    )
}

pub open spec fn cong4(p: int, x: QuadValue, y: QuadValue) -> bool {
    cong2(p, x.0, y.0) && cong2(p, x.1, y.1)
}

proof fn lemma_q_mul_cong(b: Fp2Config, x: QuadValue, y: QuadValue)
    requires
        b.wf(),
    ensures
        cong4(b.p(), q_mul(b, x, y), gq_mul(b.n(), x, y)),
        q_valid(b, q_mul(b, x, y)),
{
    let (p, n) = (b.p(), b.n());
    let zero: Fp2Value = (0, 0);
    lemma_reduced_ops(b, x.0, y.0);
    lemma_reduced_ops(b, x.1, y.1);
    lemma_reduced_ops(b, x.0, y.1);
    lemma_reduced_ops(b, x.1, y.0);
    let m11 = b.mul_spec(x.1, y.1);
    lemma_reduced_ops(b, m11, zero);
    lemma_cong2_ops(p, n, m11, g_mul(n, x.1, y.1), m11, m11);
    lemma_reduced_ops(b, b.mul_spec(x.0, y.0), b.mul_by_v_spec(m11));
    lemma_cong2_ops(
        p,
        n,
        b.mul_spec(x.0, y.0),
        g_mul(n, x.0, y.0),
        b.mul_by_v_spec(m11),
        g_mul_by_v(n, g_mul(n, x.1, y.1)),
    );
    lemma_reduced_ops(b, b.mul_spec(x.0, y.1), b.mul_spec(x.1, y.0));
    lemma_cong2_ops(
        p,
        n,
        b.mul_spec(x.0, y.1),
        g_mul(n, x.0, y.1),
        b.mul_spec(x.1, y.0),
        g_mul(n, x.1, y.0),
    );
}

proof fn lemma_gq_mul_compat(p: int, n: int, x: QuadValue, x2: QuadValue, y: QuadValue, y2: QuadValue)
    requires
        0 < p,
        cong4(p, x, x2),
        cong4(p, y, y2),
    ensures
        cong4(p, gq_mul(n, x, y), gq_mul(n, x2, y2)),
{
    lemma_cong2_ops(p, n, x.0, x2.0, y.0, y2.0);
    lemma_cong2_ops(p, n, x.1, x2.1, y.1, y2.1);
    lemma_cong2_ops(p, n, x.0, x2.0, y.1, y2.1);
    lemma_cong2_ops(p, n, x.1, x2.1, y.0, y2.0);
    let (m11, m11b) = (g_mul(n, x.1, y.1), g_mul(n, x2.1, y2.1));
    lemma_cong2_ops(p, n, m11, m11b, m11, m11b);
    lemma_cong2_ops(
        p,
        n,
        g_mul(n, x.0, y.0),
        g_mul(n, x2.0, y2.0),
        g_mul_by_v(n, m11),
        g_mul_by_v(n, m11b),
    );
    lemma_cong2_ops(
        p,
        n,
        g_mul(n, x.0, y.1),
        g_mul(n, x2.0, y2.1),
        g_mul(n, x.1, y.0),
        g_mul(n, x2.1, y2.0),
    );
}

proof fn lemma_g_more(n: int, x: Fp2Value, y: Fp2Value, z: Fp2Value)
    ensures
        g_mul(n, g_add(x, y), z) == g_add(g_mul(n, x, z), g_mul(n, y, z)),
        g_mul_by_v(n, g_add(x, y)) == g_add(g_mul_by_v(n, x), g_mul_by_v(n, y)),
        g_mul(n, x, g_mul_by_v(n, y)) == g_mul_by_v(n, g_mul(n, x, y)),
        g_mul(n, g_mul_by_v(n, x), y) == g_mul_by_v(n, g_mul(n, x, y)),
{
    lemma_g_ring(n, z, x, y);
    lemma_g_ring(n, g_add(x, y), z, z);
    lemma_g_ring(n, x, z, z);
    lemma_g_ring(n, y, z, z);
    lemma_distrib(n, x.1, y.1, 0);
    lemma_g_ring(n, x, g_mul_by_v(n, y), z);
    lemma_g_ring(n, g_mul_by_v(n, y), x, z);
    lemma_g_ring(n, y, x, z);
    lemma_g_ring(n, x, y, z);
}

proof fn lemma_gq_mul_associative(n: int, a: QuadValue, b: QuadValue, c: QuadValue)
    ensures
        gq_mul(n, gq_mul(n, a, b), c) == gq_mul(n, a, gq_mul(n, b, c)),
{
    let (a0, a1, b0, b1, c0, c1) = (a.0, a.1, b.0, b.1, c.0, c.1);
    let ab = gq_mul(n, a, b);
    let bc = gq_mul(n, b, c);
    // products of three coordinates, regrouped
    lemma_g_ring(n, a0, b0, c0);
    lemma_g_ring(n, a0, b0, c1);
    lemma_g_ring(n, a0, b1, c0);
    lemma_g_ring(n, a0, b1, c1);
    lemma_g_ring(n, a1, b0, c0);
    lemma_g_ring(n, a1, b0, c1);
    lemma_g_ring(n, a1, b1, c0);
    lemma_g_ring(n, a1, b1, c1);
    // left factor a sum
    lemma_g_more(n, g_mul(n, a0, b0), g_mul_by_v(n, g_mul(n, a1, b1)), c0);
    lemma_g_more(n, g_mul(n, a0, b0), g_mul_by_v(n, g_mul(n, a1, b1)), c1);
    lemma_g_more(n, g_mul(n, a0, b1), g_mul(n, a1, b0), c0);
    lemma_g_more(n, g_mul(n, a0, b1), g_mul(n, a1, b0), c1);
    lemma_g_more(n, g_mul(n, a1, b1), c0, c0);
    lemma_g_more(n, g_mul(n, a1, b1), c1, c1);
    // right factor a sum
    lemma_g_ring(n, a0, g_mul(n, b0, c0), g_mul_by_v(n, g_mul(n, b1, c1)));
    lemma_g_ring(n, a1, g_mul(n, b0, c0), g_mul_by_v(n, g_mul(n, b1, c1)));
    lemma_g_ring(n, a0, g_mul(n, b0, c1), g_mul(n, b1, c0));
    lemma_g_ring(n, a1, g_mul(n, b0, c1), g_mul(n, b1, c0));
    lemma_g_more(n, a0, g_mul(n, b1, c1), c0);
    lemma_g_more(n, a1, g_mul(n, b1, c1), c0);
    // multiplication by v spread over sums
    lemma_g_more(n, g_mul(n, g_mul(n, a0, b1), c1), g_mul(n, g_mul(n, a1, b0), c1), c0);
    lemma_g_more(n, g_mul(n, a1, g_mul(n, b0, c1)), g_mul(n, a1, g_mul(n, b1, c0)), c0);
    assert(ab == gq_mul(n, a, b));
    assert(bc == gq_mul(n, b, c));
}

/// Multiplication in the extension is associative.
pub proof fn lemma_mul_associative(b: Fp2Config, x: QuadValue, y: QuadValue, z: QuadValue)
    requires
        b.wf(),
        q_valid(b, x),
        q_valid(b, y),
        q_valid(b, z),
    ensures
        q_mul(b, q_mul(b, x, y), z) == q_mul(b, x, q_mul(b, y, z)),
{
    let (p, n) = (b.p(), b.n());
    let xy = q_mul(b, x, y);
    let yz = q_mul(b, y, z);
    lemma_q_mul_cong(b, x, y);
    lemma_q_mul_cong(b, y, z);
    lemma_q_mul_cong(b, xy, z);
    lemma_q_mul_cong(b, x, yz);
    lemma_gq_mul_compat(p, n, xy, gq_mul(n, x, y), z, z);
    lemma_gq_mul_compat(p, n, x, x, yz, gq_mul(n, y, z));
    lemma_gq_mul_associative(n, x, y, z);
    let l = q_mul(b, xy, z);
    let r = q_mul(b, x, yz);
    lemma_cong2_eq(b, l.0, r.0);
    lemma_cong2_eq(b, l.1, r.1);
}

/// Addition in the extension is commutative.
pub proof fn lemma_add_commutative(b: Fp2Config, x: QuadValue, y: QuadValue)
    requires
        b.wf(),
    ensures
        q_add(b, x, y) == q_add(b, y, x),
{
}

/// Addition in the extension is associative.
pub proof fn lemma_add_associative(b: Fp2Config, x: QuadValue, y: QuadValue, z: QuadValue)
    requires
        b.wf(),
        q_valid(b, x),
        q_valid(b, y),
        q_valid(b, z),
    ensures
        q_add(b, q_add(b, x, y), z) == q_add(b, x, q_add(b, y, z)),
{
    let (p, n) = (b.p(), b.n());
    let l = q_add(b, q_add(b, x, y), z);
    let r = q_add(b, x, q_add(b, y, z));
    lemma_reduced_ops(b, x.0, y.0);
    lemma_reduced_ops(b, x.1, y.1);
    lemma_reduced_ops(b, y.0, z.0);
    lemma_reduced_ops(b, y.1, z.1);
    lemma_reduced_ops(b, b.add_spec(x.0, y.0), z.0);
    lemma_reduced_ops(b, b.add_spec(x.1, y.1), z.1);
    lemma_reduced_ops(b, x.0, b.add_spec(y.0, z.0));
    lemma_reduced_ops(b, x.1, b.add_spec(y.1, z.1));
    lemma_cong2_ops(p, n, b.add_spec(x.0, y.0), g_add(x.0, y.0), z.0, z.0);
    lemma_cong2_ops(p, n, b.add_spec(x.1, y.1), g_add(x.1, y.1), z.1, z.1);
    lemma_cong2_ops(p, n, x.0, x.0, b.add_spec(y.0, z.0), g_add(y.0, z.0));
    lemma_cong2_ops(p, n, x.1, x.1, b.add_spec(y.1, z.1), g_add(y.1, z.1));
    lemma_cong2_eq(b, l.0, r.0);
    lemma_cong2_eq(b, l.1, r.1);
}

/// Zero is the identity of addition.
pub proof fn lemma_add_zero(b: Fp2Config, x: QuadValue)
    requires
        b.wf(),
        q_valid(b, x),
    ensures
        q_add(b, x, q_zero()) == x,
{
    vstd::arithmetic::div_mod::lemma_small_mod(x.0.0 as nat, b.p() as nat);
    vstd::arithmetic::div_mod::lemma_small_mod(x.0.1 as nat, b.p() as nat);
    vstd::arithmetic::div_mod::lemma_small_mod(x.1.0 as nat, b.p() as nat);
    vstd::arithmetic::div_mod::lemma_small_mod(x.1.1 as nat, b.p() as nat);
}

/// Multiplication in the extension is commutative.
pub proof fn lemma_mul_commutative(b: Fp2Config, x: QuadValue, y: QuadValue)
    requires
        b.wf(),
    ensures
        q_mul(b, x, y) == q_mul(b, y, x),
{
    let n = b.n();
    lemma_g_ring(n, x.0, y.0, y.0);
    lemma_g_ring(n, x.1, y.1, y.1);
    lemma_g_ring(n, x.0, y.1, y.1);
    lemma_g_ring(n, x.1, y.0, y.0);
    assert(b.mul_spec(x.0, y.0) == b.mul_spec(y.0, x.0));
    assert(b.mul_spec(x.1, y.1) == b.mul_spec(y.1, x.1));
    assert(b.mul_spec(x.0, y.1) == b.mul_spec(y.1, x.0));
    assert(b.mul_spec(x.1, y.0) == b.mul_spec(y.0, x.1));
}

/// One is the identity of multiplication.
pub proof fn lemma_mul_one(b: Fp2Config, x: QuadValue)
    requires
        b.wf(),
        q_valid(b, x),
    ensures
        q_mul(b, x, q_one()) == x,
{
    let (p, n) = (b.p(), b.n());
    lemma_q_mul_cong(b, x, q_one());
    assert(n * (x.0.1 * 0) == 0);
    assert(n * (x.1.1 * 0) == 0);
    assert(n * 0 == 0);
    assert(gq_mul(n, x, q_one()) == x);
    lemma_cong2_eq(b, q_mul(b, x, q_one()).0, x.0);
    lemma_cong2_eq(b, q_mul(b, x, q_one()).1, x.1);
}

/// Multiplication distributes over addition.
pub proof fn lemma_mul_distributive(b: Fp2Config, x: QuadValue, y: QuadValue, z: QuadValue)
    requires
        b.wf(),
        q_valid(b, x),
        q_valid(b, y),
        q_valid(b, z),
    ensures
        q_mul(b, x, q_add(b, y, z)) == q_add(b, q_mul(b, x, y), q_mul(b, x, z)),
{
    let (p, n) = (b.p(), b.n());
    let yz = q_add(b, y, z);
    let gyz: QuadValue = (g_add(y.0, z.0), g_add(y.1, z.1));
    let (xy, xz) = (q_mul(b, x, y), q_mul(b, x, z));
    lemma_reduced_ops(b, y.0, z.0);
    lemma_reduced_ops(b, y.1, z.1);
    lemma_q_mul_cong(b, x, yz);
    lemma_gq_mul_compat(p, n, x, x, yz, gyz);
    lemma_q_mul_cong(b, x, y);
    lemma_q_mul_cong(b, x, z);
    lemma_reduced_ops(b, xy.0, xz.0);
    lemma_reduced_ops(b, xy.1, xz.1);
    let (gxy, gxz) = (gq_mul(n, x, y), gq_mul(n, x, z));
    lemma_cong2_ops(p, n, xy.0, gxy.0, xz.0, gxz.0);
    lemma_cong2_ops(p, n, xy.1, gxy.1, xz.1, gxz.1);
    // the identity before reduction
    lemma_g_ring(n, x.0, y.0, z.0);
    lemma_g_ring(n, x.1, y.1, z.1);
    lemma_g_ring(n, x.0, y.1, z.1);
    lemma_g_ring(n, x.1, y.0, z.0);
    lemma_g_more(n, g_mul(n, x.1, y.1), g_mul(n, x.1, z.1), z.0);
    let l = q_mul(b, x, yz);
    let r = q_add(b, xy, xz);
    lemma_cong2_eq(b, l.0, r.0);
    lemma_cong2_eq(b, l.1, r.1);
}

/// An element times its conjugate lies in the base field: the second
/// coordinate of the product is zero.
pub proof fn lemma_conjugate_product(b: Fp2Config, x: QuadValue)
    requires
        b.wf(),
        q_valid(b, x),
    ensures
        q_mul(b, x, q_conjugate(b, x)).1 == (0int, 0int),
{
    let (p, n) = (b.p(), b.n());
    let zero: Fp2Value = (0, 0);
    let c = q_conjugate(b, x);
    lemma_reduced_ops(b, x.1, zero);
    lemma_q_mul_cong(b, x, c);
    lemma_gq_mul_compat(p, n, x, x, c, (x.0, crate::fp2::g_sub(zero, x.1)));
    lemma_g_ring(n, x.0, zero, x.1);
    lemma_g_ring(n, x.1, x.0, x.0);
    assert(g_mul(n, x.0, zero) == zero);
    vstd::arithmetic::div_mod::lemma_small_mod(0, p as nat);
    lemma_cong2_eq(b, q_mul(b, x, c).1, zero);
}

/// For an element of norm one (its product with its conjugate is one), the
/// conjugate is its only inverse: whatever `inverse` returns equals what
/// `cyclotomic_inverse` returns.
pub proof fn lemma_norm_one_inverse_is_conjugate(b: Fp2Config, x: QuadValue, y: QuadValue)
    requires
        b.wf(),
        q_valid(b, x),
        q_valid(b, y),
        q_mul(b, x, q_conjugate(b, x)) == q_one(),
        q_mul(b, x, y) == q_one(),
    ensures
        y == q_conjugate(b, x),
{
    let c = q_conjugate(b, x);
    lemma_reduced_ops(b, x.1, x.1);
    lemma_mul_one(b, y);
    lemma_mul_associative(b, y, x, c);
    lemma_mul_commutative(b, y, x);
    lemma_mul_commutative(b, q_one(), c);
    lemma_mul_one(b, c);
}

/// The Frobenius map at power zero is the identity.
pub proof fn lemma_frobenius_zero_power<C: QuadExtConfig>(c: C, x: QuadValue)
    requires
        c.wf(),
        q_valid(c.base_spec(), x),
    ensures
        q_frobenius(c, x, 0) == x,
{
    let b = c.base_spec();
    c.lemma_frobenius_table();
    vstd::arithmetic::div_mod::lemma_small_mod(x.0.0 as nat, b.p() as nat);
    vstd::arithmetic::div_mod::lemma_small_mod(x.0.1 as nat, b.p() as nat);
    vstd::arithmetic::div_mod::lemma_small_mod(x.1.0 as nat, b.p() as nat);
    vstd::arithmetic::div_mod::lemma_small_mod(x.1.1 as nat, b.p() as nat);
    let f1 = b.frobenius_spec(x.1, 0);
    assert(b.frob_coeff(0) == 1);
    assert(x.1.1 * 1 == x.1.1);
    assert(f1 == x.1);
    assert(x.1.1 * 0 == 0);
    assert(b.n() * 0 == 0);
    assert(x.1.0 * 1 + b.n() * (x.1.1 * 0) == x.1.0);
    assert(b.mul_spec(f1, (1, 0)) == x.1);
}

/// Multiplication in `Fp2` is associative.
pub proof fn lemma_fp2_mul_associative(b: Fp2Config, x: Fp2Value, y: Fp2Value, z: Fp2Value)
    requires
        b.wf(),
    ensures
        b.mul_spec(b.mul_spec(x, y), z) == b.mul_spec(x, b.mul_spec(y, z)),
{
    let (p, n) = (b.p(), b.n());
    let (xy, yz) = (b.mul_spec(x, y), b.mul_spec(y, z));
    lemma_reduced_ops(b, x, y);
    lemma_reduced_ops(b, y, z);
    lemma_reduced_ops(b, xy, z);
    lemma_reduced_ops(b, x, yz);
    lemma_cong2_ops(p, n, xy, g_mul(n, x, y), z, z);
    lemma_cong2_ops(p, n, x, x, yz, g_mul(n, y, z));
    lemma_g_ring(n, x, y, z);
    lemma_cong2_eq(b, b.mul_spec(xy, z), b.mul_spec(x, yz));
}

/// The base field's Frobenius map respects products.
proof fn lemma_fp2_frobenius_mul(b: Fp2Config, y: Fp2Value, z: Fp2Value, j: nat)
    requires
        b.wf(),
        b.valid(y),
        b.valid(z),
    ensures
        b.frobenius_spec(b.mul_spec(y, z), j) == b.mul_spec(
            b.frobenius_spec(y, j),
            b.frobenius_spec(z, j),
        ),
{
    let (p, n) = (b.p(), b.n());
    let t = b.frob_coeff(j);
    let (y0, y1, z0, z1) = (y.0, y.1, z.0, z.1);
    assert(cong(p, t * t, 1)) by {
        vstd::arithmetic::div_mod::lemma_small_mod(1, p as nat);
        if j % 2 == 0 {
            assert(t == 1);
        } else {
            assert(t == b.frob_coeff(1));
        }
    }
    let m = b.mul_spec(y, z);
    let (fy, fz) = (b.frobenius_spec(y, j), b.frobenius_spec(z, j));
    lemma_cong_refl_mod(p, y0);
    lemma_cong_refl_mod(p, z0);
    lemma_cong_refl_mod(p, y1 * t);
    lemma_cong_refl_mod(p, z1 * t);
    lemma_cong_refl_mod(p, y0 * z0 + n * (y1 * z1));
    lemma_cong_refl_mod(p, y0 * z1 + y1 * z0);
    // first coordinate
    lemma_cong_mul(p, y0 % p, y0, z0 % p, z0);
    lemma_cong_mul(p, (y1 * t) % p, y1 * t, (z1 * t) % p, z1 * t);
    lemma_cong_mul(p, n, n, ((y1 * t) % p) * ((z1 * t) % p), (y1 * t) * (z1 * t));
    lemma_cong_add(
        p,
        (y0 % p) * (z0 % p),
        y0 * z0,
        n * (((y1 * t) % p) * ((z1 * t) % p)),
        n * ((y1 * t) * (z1 * t)),
    );
    assert(n * ((y1 * t) * (z1 * t)) == (n * (y1 * z1)) * (t * t)) by (nonlinear_arith);
    lemma_cong_mul(p, n * (y1 * z1), n * (y1 * z1), t * t, 1);
    lemma_cong_add(p, y0 * z0, y0 * z0, (n * (y1 * z1)) * (t * t), n * (y1 * z1));
    lemma_cong_refl_mod(p, m.0);
    // second coordinate
    lemma_cong_mul(p, m.1, y0 * z1 + y1 * z0, t, t);
    lemma_cong_mul(p, y0 % p, y0, (z1 * t) % p, z1 * t);
    lemma_cong_mul(p, (y1 * t) % p, y1 * t, z0 % p, z0);
    lemma_cong_add(
        p,
        (y0 % p) * ((z1 * t) % p),
        y0 * (z1 * t),
        ((y1 * t) % p) * (z0 % p),
        (y1 * t) * z0,
    );
    assert(y0 * (z1 * t) + (y1 * t) * z0 == (y0 * z1 + y1 * z0) * t) by (nonlinear_arith);
    lemma_reduced_ops(b, fy, fz);
    lemma_reduced_ops(b, y, z);
    lemma_frobenius_valid(b, y, j);
    lemma_frobenius_valid(b, z, j);
    lemma_frobenius_valid(b, m, j);
    lemma_cong2_eq(b, b.frobenius_spec(m, j), b.mul_spec(fy, fz));
}

/// The base field's Frobenius map at powers `i` then `j` is the map at
/// power `i + j`, taken modulo any even period.
proof fn lemma_fp2_frobenius_compose(b: Fp2Config, y: Fp2Value, i: nat, j: nat, d: nat)
    requires
        b.wf(),
        b.valid(y),
        d > 0,
        d % 2 == 0,
    ensures
        b.frobenius_spec(b.frobenius_spec(y, i), j) == b.frobenius_spec(y, (i + j) % d),
        b.valid(b.frobenius_spec(y, i)),
{
    let p = b.p();
    let (ti, tj, tk) = (b.frob_coeff(i), b.frob_coeff(j), b.frob_coeff((i + j) % d));
    vstd::arithmetic::div_mod::lemma_mod_mod((i + j) as int, 2, (d / 2) as int);
    assert(2 * (d / 2) as int == d as int);
    let k = ((i + j) % d) as nat;
    assert(k % 2 == (i + j) % 2);
    vstd::arithmetic::div_mod::lemma_small_mod(1, p as nat);
    assert(cong(p, ti * tj, tk)) by {
        if i % 2 == 1 && j % 2 == 1 {
            assert(ti == b.frob_coeff(1) && tj == b.frob_coeff(1));
            assert((i + j) % 2 == 0);
        } else if i % 2 == 0 {
            assert((i + j) % 2 == j % 2);
            assert(ti * tj == tj);
        } else {
            assert((i + j) % 2 == i % 2);
            assert(ti * tj == ti);
        }
    }
    lemma_frobenius_valid(b, y, i);
    lemma_frobenius_valid(b, y, (i + j) % d);
    let f = b.frobenius_spec(y, i);
    lemma_cong_refl_mod(p, y.0);
    lemma_cong_refl_mod(p, y.0 % p);
    lemma_cong_refl_mod(p, y.1 * ti);
    lemma_cong_mul(p, f.1, y.1 * ti, tj, tj);
    assert((y.1 * ti) * tj == y.1 * (ti * tj)) by (nonlinear_arith);
    lemma_cong_mul(p, y.1, y.1, ti * tj, tk);
    lemma_frobenius_valid(b, f, j);
    lemma_cong_refl_mod(p, f.1 * tj);
    lemma_cong_refl_mod(p, y.1 * tk);
    lemma_cong2_eq(b, b.frobenius_spec(f, j), b.frobenius_spec(y, (i + j) % d));
}

/// Frobenius maps compose by adding powers modulo the degree, and the map
/// at power equal to the degree is the identity, for a coherent table.
pub proof fn lemma_frobenius_composition<C: QuadExtConfig>(c: C, x: QuadValue, i: nat, j: nat)
    requires
        c.wf(),
        q_valid(c.base_spec(), x),
        frobenius_coherent(c),
    ensures
        q_frobenius(c, q_frobenius(c, x, i), j) == q_frobenius(c, x, (i + j) % c.degree()),
        q_frobenius(c, x, c.degree()) == x,
{
    let b = c.base_spec();
    let d = c.degree();
    c.lemma_frobenius_table();
    lemma_fp2_frobenius_compose(b, x.0, i, j, d);
    lemma_fp2_frobenius_compose(b, x.1, i, j, d);
    let f1 = b.frobenius_spec(x.1, i);
    let (ti, tj) = (c.frob_coeff(i), c.frob_coeff(j));
    lemma_frobenius_valid(b, ti, j);
    lemma_fp2_frobenius_mul(b, f1, ti, j);
    let ff = b.frobenius_spec(f1, j);
    lemma_frobenius_valid(b, f1, j);
    lemma_fp2_mul_associative(b, ff, b.frobenius_spec(ti, j), tj);
    assert(b.mul_spec(b.frobenius_spec(ti, j), tj) == c.frob_coeff(i + j));
    assert(c.frob_coeff(i + j) == c.frob_coeff(((i + j) % d) as nat));
    // the power equal to the degree
    vstd::arithmetic::div_mod::lemma_mod_self_0(d as int);
    lemma_frobenius_zero_power(c, x);
    assert(c.frob_coeff(d) == c.frob_coeff(0));
    assert(b.frob_coeff(d) == b.frob_coeff(0));
}

} // verus!
