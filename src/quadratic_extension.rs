//! The generic quadratic-extension engine: elements `c0 + c1 * u` over
//! `Fp2`, where `u^2` is the fixed non-residue `v = (0, 1)` of `Fp2`.
use crate::fp2::{
    g_add, g_mul, g_mul_by_v, g_sub, lemma_cong2_eq, lemma_cong2_ops, lemma_reduced_ops, Fp2,
    Fp2Config, Fp2Value,
};
use crate::fp::is_prime;
use core::marker::PhantomData;
use vstd::prelude::*;

verus! {

/// The mathematical value of an extension element: its two `Fp2`
/// coordinates.
pub type QuadValue = (Fp2Value, Fp2Value);

/// What the engine needs from a tower configuration: the base field, the
/// multiplication of a base element by the non-residue, and the Frobenius
/// coefficient table.
pub trait QuadExtConfig: Sized {
    /// The configuration's constants are well formed.
    spec fn wf(&self) -> bool;

    /// The parameters of the base field `Fp2`.
    spec fn base_spec(&self) -> Fp2Config;

    /// The extension's degree over the prime field.
    spec fn degree(&self) -> nat;

    /// The Frobenius coefficient at `power`, as an `Fp2` value.
    spec fn frob_coeff(&self, power: nat) -> Fp2Value;

    fn base(&self) -> (r: &Fp2Config)
        requires
            self.wf(),
        ensures
            *r == self.base_spec(),
            r.wf(),
    ;

    fn mul_base_field_by_nonresidue_in_place(&self, fe: &mut Fp2)
        requires
            self.wf(),
            self.base_spec().valid(old(fe)@),
        ensures
            final(fe)@ == self.base_spec().mul_by_v_spec(old(fe)@),
    ;

    /// The base field is well formed, the table's entry for power zero is
    /// one, and every entry is reduced.
    proof fn lemma_frobenius_table(&self)
        requires
            self.wf(),
        ensures
            self.base_spec().wf(),
            self.degree() > 0,
            self.degree() % 2 == 0,
            self.frob_coeff(0) == (1int, 0int),
            forall|power: nat| #[trigger] self.frob_coeff(power) == self.frob_coeff(power % self.degree()),
            forall|power: nat| #[trigger] self.base_spec().valid(self.frob_coeff(power)),
    ;

    fn mul_base_field_by_frob_coeff(&self, fe: &mut Fp2, power: usize)
        requires
            self.wf(),
            self.base_spec().valid(old(fe)@),
        ensures
            final(fe)@ == self.base_spec().mul_spec(old(fe)@, self.frob_coeff(power as nat)),
    ;
}

/// An element `c0 + c1 * u` of the extension configured by `C`.
#[derive(Debug)]
pub struct QuadExtField<C> {
    pub c0: Fp2,
    pub c1: Fp2,
    pub config: PhantomData<C>,
}

impl<C> View for QuadExtField<C> {
    type V = QuadValue;

    open spec fn view(&self) -> QuadValue {
        (self.c0@, self.c1@)
    }
}

/// Both coordinates are reduced `Fp2` values.
pub open spec fn q_valid(b: Fp2Config, x: QuadValue) -> bool {
    b.valid(x.0) && b.valid(x.1)
}

pub open spec fn q_zero() -> QuadValue {
    ((0, 0), (0, 0))
}

pub open spec fn q_one() -> QuadValue {
    ((1, 0), (0, 0))
}

pub open spec fn q_add(b: Fp2Config, x: QuadValue, y: QuadValue) -> QuadValue {
    (b.add_spec(x.0, y.0), b.add_spec(x.1, y.1))
}

pub open spec fn q_sub(b: Fp2Config, x: QuadValue, y: QuadValue) -> QuadValue {
    (b.sub_spec(x.0, y.0), b.sub_spec(x.1, y.1))
}

pub open spec fn q_neg(b: Fp2Config, x: QuadValue) -> QuadValue {
    (b.neg_spec(x.0), b.neg_spec(x.1))
}

/// The schoolbook product `(x0 y0 + v x1 y1, x0 y1 + x1 y0)`.
pub open spec fn q_mul(b: Fp2Config, x: QuadValue, y: QuadValue) -> QuadValue {
    (
        b.add_spec(b.mul_spec(x.0, y.0), b.mul_by_v_spec(b.mul_spec(x.1, y.1))),
        b.add_spec(b.mul_spec(x.0, y.1), b.mul_spec(x.1, y.0)),
    )
}

/// The norm `x0^2 - v x1^2`, an element of `Fp2`.
pub open spec fn q_norm(b: Fp2Config, x: QuadValue) -> Fp2Value {
    b.sub_spec(b.mul_spec(x.0, x.0), b.mul_by_v_spec(b.mul_spec(x.1, x.1)))
}

pub open spec fn q_conjugate(b: Fp2Config, x: QuadValue) -> QuadValue {
    (x.0, b.neg_spec(x.1))
}

/// Scaling both coordinates by a prime-field element.
pub open spec fn q_scale_fp(b: Fp2Config, x: QuadValue, s: int) -> QuadValue {
    (b.scale_spec(x.0, s), b.scale_spec(x.1, s))
}

/// Scaling both coordinates by an `Fp2` element.
pub open spec fn q_scale_fp2(b: Fp2Config, x: QuadValue, e: Fp2Value) -> QuadValue {
    (b.mul_spec(x.0, e), b.mul_spec(x.1, e))
}

/// `x^(p^power)`: the base field's Frobenius on each coordinate, then the
/// second coordinate times the table's coefficient for `power`.
pub open spec fn q_frobenius<C: QuadExtConfig>(c: C, x: QuadValue, power: nat) -> QuadValue {
    let b = c.base_spec();
    (b.frobenius_spec(x.0, power), b.mul_spec(b.frobenius_spec(x.1, power), c.frob_coeff(power)))
}

pub proof fn lemma_distrib(a: int, b: int, c: int, d: int)
    ensures
        (a + b) * (c + d) == a * c + a * d + b * c + b * d,
        a * (b + c) == a * b + a * c,
        a * (b - c) == a * b - a * c,
        a * (b * c) == b * (a * c),
        a * (b * c) == (a * b) * c,
        a * (0 - b) == 0 - a * b,
{
    assert((a + b) * (c + d) == a * c + a * d + b * c + b * d) by (nonlinear_arith);
    assert(a * (b + c) == a * b + a * c) by (nonlinear_arith);
    assert(a * (b - c) == a * b - a * c) by (nonlinear_arith);
    assert(a * (b * c) == b * (a * c)) by (nonlinear_arith);
    assert(a * (b * c) == (a * b) * c) by (nonlinear_arith);
    assert(a * (0 - b) == 0 - a * b) by (nonlinear_arith);
}

proof fn lemma_karatsuba_identity(n: int, a0: Fp2Value, a1: Fp2Value, b0: Fp2Value, b1: Fp2Value)
    ensures
        g_sub(g_sub(g_mul(n, g_add(a0, a1), g_add(b0, b1)), g_mul(n, a0, b0)), g_mul(n, a1, b1))
            == g_add(g_mul(n, a0, b1), g_mul(n, a1, b0)),
{
    let (x0, x1, y0, y1, z0, z1, w0, w1) = (a0.0, a0.1, a1.0, a1.1, b0.0, b0.1, b1.0, b1.1);
    lemma_distrib(x0, y0, z0, w0);
    lemma_distrib(x1, y1, z1, w1);
    lemma_distrib(x0, y0, z1, w1);
    lemma_distrib(x1, y1, z0, w0);
    lemma_distrib(n, x1 * z1 + x1 * w1 + y1 * z1, y1 * w1, 0);
    lemma_distrib(n, x1 * z1 + x1 * w1, y1 * z1, 0);
    lemma_distrib(n, x1 * z1, x1 * w1, 0);
}

proof fn lemma_square_identity(n: int, a0: Fp2Value, a1: Fp2Value)
    ensures
        g_sub(
            g_sub(g_mul(n, g_add(a0, a1), g_add(a0, g_mul_by_v(n, a1))), g_mul(n, a0, a1)),
            g_mul_by_v(n, g_mul(n, a0, a1)),
        ) == g_add(g_mul(n, a0, a0), g_mul_by_v(n, g_mul(n, a1, a1))),
        g_add(g_mul(n, a0, a1), g_mul(n, a0, a1)) == g_add(g_mul(n, a0, a1), g_mul(n, a1, a0)),
{
    let (x0, x1, y0, y1) = (a0.0, a0.1, a1.0, a1.1);
    lemma_distrib(x0, y0, x0, n * y1);
    lemma_distrib(x1, y1, x1, y0);
    lemma_distrib(x0, y0, x1, y0);
    lemma_distrib(x1, y1, x0, n * y1);
    lemma_distrib(x0, n, y1, 0);
    lemma_distrib(y0, n, y1, 0);
    lemma_distrib(x1, n, y1, 0);
    lemma_distrib(y1, n, y1, 0);
    lemma_distrib(n, x1 * x1 + x1 * y0 + y1 * x1, y1 * y0, 0);
    lemma_distrib(n, x1 * x1 + x1 * y0, y1 * x1, 0);
    lemma_distrib(n, x1 * x1, x1 * y0, 0);
    lemma_distrib(n, x0 * y1, x1 * y0, 0);
    lemma_distrib(n, y0 * y1, y1 * y0, 0);
    lemma_distrib(x0, y0, 0, 0);
    lemma_distrib(x1, y0, 0, 0);
    lemma_distrib(x1, y1, 0, 0);
    lemma_distrib(x0, y1, 0, 0);
    lemma_distrib(x0, x1, 0, 0);
    lemma_distrib(y0, y1, 0, 0);
}

/// `Fp2` over the integers, before reduction, is a commutative ring in
/// which multiplication by `v` commutes with products.
pub proof fn lemma_g_ring(n: int, x: Fp2Value, y: Fp2Value, z: Fp2Value)
    ensures
        g_mul(n, x, y) == g_mul(n, y, x),
        g_mul(n, x, g_mul(n, y, z)) == g_mul(n, g_mul(n, x, y), z),
        g_mul(n, x, g_add(y, z)) == g_add(g_mul(n, x, y), g_mul(n, x, z)),
        g_mul(n, x, g_sub(y, z)) == g_sub(g_mul(n, x, y), g_mul(n, x, z)),
        g_mul_by_v(n, g_mul(n, x, y)) == g_mul(n, g_mul_by_v(n, x), y),
{
    let (x0, x1, y0, y1, z0, z1) = (x.0, x.1, y.0, y.1, z.0, z.1);
    lemma_distrib(x0, y0, 0, 0);
    lemma_distrib(x1, y1, 0, 0);
    lemma_distrib(x0, y1, 0, 0);
    lemma_distrib(x1, y0, 0, 0);
    // associativity
    lemma_distrib(x0, y0 * z0, n * (y1 * z1), 0);
    lemma_distrib(x0, y0 * z1, y1 * z0, 0);
    lemma_distrib(x1, y0 * z0, n * (y1 * z1), 0);
    lemma_distrib(x1, y0 * z1, y1 * z0, 0);
    lemma_distrib(z0, x0 * y0, n * (x1 * y1), 0);
    lemma_distrib(z1, x0 * y0, n * (x1 * y1), 0);
    lemma_distrib(z0, x0 * y1, x1 * y0, 0);
    lemma_distrib(z1, x0 * y1, x1 * y0, 0);
    lemma_distrib(n, x1 * (y0 * z1), x1 * (y1 * z0), 0);
    lemma_distrib(n, z1 * (x0 * y1), z1 * (x1 * y0), 0);
    lemma_distrib(x0, n, y1 * z1, 0);
    lemma_distrib(x1, n, y1 * z1, 0);
    lemma_distrib(z0, n, x1 * y1, 0);
    lemma_distrib(z1, n, x1 * y1, 0);
    lemma_distrib(x0, y0, z0, 0);
    lemma_distrib(x0, y0, z1, 0);
    lemma_distrib(x0, y1, z0, 0);
    lemma_distrib(x0, y1, z1, 0);
    lemma_distrib(x1, y0, z0, 0);
    lemma_distrib(x1, y0, z1, 0);
    lemma_distrib(x1, y1, z0, 0);
    lemma_distrib(x1, y1, z1, 0);
    lemma_distrib(z0, x0, y0, 0);
    lemma_distrib(z0, x0, y1, 0);
    lemma_distrib(z0, x1, y0, 0);
    lemma_distrib(z0, x1, y1, 0);
    lemma_distrib(z1, x0, y0, 0);
    lemma_distrib(z1, x0, y1, 0);
    lemma_distrib(z1, x1, y0, 0);
    lemma_distrib(z1, x1, y1, 0);
    lemma_distrib(n, x1, y1 * z1, 0);
    lemma_distrib(n, z1, x1 * y1, 0);
    lemma_distrib(n, x1 * y1, z1, 0);
    lemma_distrib(x1, y1, n * z1, 0);
    lemma_distrib(n, n * (x1 * y1), z1, 0);
    lemma_distrib(n, x1, n * (y1 * z1), 0);
    assert(x0 * (y0 * z0 + n * (y1 * z1)) + n * (x1 * (y0 * z1 + y1 * z0)) == (x0 * y0 + n * (x1
        * y1)) * z0 + n * ((x0 * y1 + x1 * y0) * z1));
    assert(x0 * (y0 * z1 + y1 * z0) + x1 * (y0 * z0 + n * (y1 * z1)) == (x0 * y0 + n * (x1 * y1))
        * z1 + (x0 * y1 + x1 * y0) * z0);
    // distributivity
    lemma_distrib(x0, y0, z0, 0);
    lemma_distrib(x1, y1, z1, 0);
    lemma_distrib(n, x1 * y1, x1 * z1, 0);
    lemma_distrib(x0, y1, z1, 0);
    lemma_distrib(x1, y0, z0, 0);
    lemma_distrib(n, x1 * y1, 0 - x1 * z1, 0);
    assert(n * (x1 * (y1 - z1)) == n * (x1 * y1) - n * (x1 * z1)) by (nonlinear_arith);
    assert(x0 * (y0 - z0) == x0 * y0 - x0 * z0) by (nonlinear_arith);
    assert(x0 * (y1 - z1) == x0 * y1 - x0 * z1) by (nonlinear_arith);
    assert(x1 * (y0 - z0) == x1 * y0 - x1 * z0) by (nonlinear_arith);
    assert(n * (x1 * (y1 + z1)) == n * (x1 * y1) + n * (x1 * z1)) by (nonlinear_arith);
    // multiplication by v
    lemma_distrib(n, x0 * y1, x1 * y0, 0);
    assert(n * x1 * y1 == n * (x1 * y1)) by (nonlinear_arith);
    assert((n * x1) * y0 == n * (x1 * y0)) by (nonlinear_arith);
    assert(x0 * (n * y1) == n * (x0 * y1)) by (nonlinear_arith);
}

proof fn lemma_inverse_identity(n: int, a0: Fp2Value, a1: Fp2Value, i: Fp2Value)
    ensures
        g_add(
            g_mul(n, a0, g_mul(n, a0, i)),
            g_mul_by_v(n, g_mul(n, a1, g_sub((0, 0), g_mul(n, a1, i)))),
        ) == g_mul(n, g_sub(g_mul(n, a0, a0), g_mul_by_v(n, g_mul(n, a1, a1))), i),
        g_add(g_mul(n, a0, g_sub((0, 0), g_mul(n, a1, i))), g_mul(n, a1, g_mul(n, a0, i))) == (
            0int,
            0int,
        ),
{
    let zero: Fp2Value = (0, 0);
    let m = g_mul(n, a1, i);
    lemma_g_ring(n, a0, a0, i);
    lemma_g_ring(n, a1, a1, i);
    lemma_g_ring(n, a1, zero, m);
    lemma_g_ring(n, a0, zero, m);
    lemma_g_ring(n, a0, a1, i);
    lemma_g_ring(n, a1, a0, i);
    lemma_g_ring(n, i, g_mul(n, a0, a0), g_mul_by_v(n, g_mul(n, a1, a1)));
    lemma_g_ring(n, g_mul(n, a0, a0), i, zero);
    lemma_g_ring(n, g_mul_by_v(n, g_mul(n, a1, a1)), i, zero);
    lemma_g_ring(n, g_mul(n, a1, a1), i, zero);
    lemma_g_ring(n, g_mul(n, a0, a1), i, zero);
    lemma_g_ring(n, g_mul(n, a1, a0), i, zero);
    lemma_g_ring(n, a0, a1, zero);
    let big_n = g_sub(g_mul(n, a0, a0), g_mul_by_v(n, g_mul(n, a1, a1)));
    lemma_g_ring(n, big_n, i, zero);
    let t = g_mul(n, g_mul(n, a1, a1), i);
    lemma_distrib(n, 0, t.1, 0);
    assert(g_mul(n, a1, zero) == zero);
    assert(g_mul(n, a0, zero) == zero);
    assert(g_mul(n, zero, zero) == zero);
}

/// The Frobenius table agrees with the Frobenius map: applying the base
/// field's Frobenius at power `j` to the entry for `i` and multiplying by the
/// entry for `j` gives the entry for `i + j`. Tables computed as
/// `nonresidue^((p^i - 1) / degree)` have this property.
pub open spec fn frobenius_coherent<C: QuadExtConfig>(c: C) -> bool {
    let b = c.base_spec();
    forall|i: nat, j: nat|
        #[trigger] b.mul_spec(b.frobenius_spec(c.frob_coeff(i), j), c.frob_coeff(j))
            == c.frob_coeff(i + j)
}

/// The base field's Frobenius map keeps values reduced.
pub proof fn lemma_frobenius_valid(b: Fp2Config, x: Fp2Value, power: nat)
    requires
        b.wf(),
    ensures
        b.valid(b.frobenius_spec(x, power)),
{
    crate::fp::lemma_cong_refl_mod(b.p(), x.0);
    crate::fp::lemma_cong_refl_mod(b.p(), x.1 * b.frob_coeff(power));
}

/// Inversion through conjugation is cheap for elements of norm one.
pub const CYCLOTOMIC_INVERSE_IS_FAST: bool = true;

impl<C: QuadExtConfig> QuadExtField<C> {
    pub fn new(c0: Fp2, c1: Fp2) -> (r: Self)
        ensures
            r.c0 == c0,
            r.c1 == c1,
    {
        QuadExtField { c0, c1, config: PhantomData }
    }

    pub fn zero() -> (r: Self)
        ensures
            r@ == q_zero(),
    {
        QuadExtField { c0: Fp2::zero(), c1: Fp2::zero(), config: PhantomData }
    }

    pub fn one() -> (r: Self)
        ensures
            r@ == q_one(),
    {
        QuadExtField { c0: Fp2::one(), c1: Fp2::zero(), config: PhantomData }
    }

    pub fn is_zero(&self) -> (r: bool)
        ensures
            r == (self@ == q_zero()),
    {
        self.c0.is_zero() && self.c1.is_zero()
    }

    pub fn add(&self, other: &Self, cfg: &C) -> (r: Self)
        requires
            cfg.wf(),
            q_valid(cfg.base_spec(), self@),
            q_valid(cfg.base_spec(), other@),
        ensures
            r@ == q_add(cfg.base_spec(), self@, other@),
    {
        let b = cfg.base();
        QuadExtField { c0: self.c0.add(&other.c0, b), c1: self.c1.add(&other.c1, b), config: PhantomData }
    }

    pub fn sub(&self, other: &Self, cfg: &C) -> (r: Self)
        requires
            cfg.wf(),
            q_valid(cfg.base_spec(), self@),
            q_valid(cfg.base_spec(), other@),
        ensures
            r@ == q_sub(cfg.base_spec(), self@, other@),
    {
        let b = cfg.base();
        QuadExtField { c0: self.c0.sub(&other.c0, b), c1: self.c1.sub(&other.c1, b), config: PhantomData }
    }

    pub fn neg(&self, cfg: &C) -> (r: Self)
        requires
            cfg.wf(),
            q_valid(cfg.base_spec(), self@),
        ensures
            r@ == q_neg(cfg.base_spec(), self@),
    {
        let b = cfg.base();
        QuadExtField { c0: self.c0.neg(b), c1: self.c1.neg(b), config: PhantomData }
    }

    /// `c0 - c1 * u`.
    pub fn conjugate(&self, cfg: &C) -> (r: Self)
        requires
            cfg.wf(),
            q_valid(cfg.base_spec(), self@),
        ensures
            r@ == q_conjugate(cfg.base_spec(), self@),
    {
        let b = cfg.base();
        QuadExtField { c0: self.c0, c1: self.c1.neg(b), config: PhantomData }
    }

    pub fn conjugate_in_place(&mut self, cfg: &C)
        requires
            cfg.wf(),
            q_valid(cfg.base_spec(), old(self)@),
        ensures
            final(self)@ == q_conjugate(cfg.base_spec(), old(self)@),
    {
        let b = cfg.base();
        self.c1 = self.c1.neg(b);
    }

    /// Scales both coordinates by an element of the base field `Fp2`.
    pub fn mul_by_base_field(&self, e: &Fp2, cfg: &C) -> (r: Self)
        requires
            cfg.wf(),
            q_valid(cfg.base_spec(), self@),
            cfg.base_spec().valid(e@),
        ensures
            r@ == q_scale_fp2(cfg.base_spec(), self@, e@),
    {
        let b = cfg.base();
        QuadExtField { c0: self.c0.mul(e, b), c1: self.c1.mul(e, b), config: PhantomData }
    }

    /// Karatsuba multiplication with three base-field products:
    /// `v0 = a0 b0`, `v1 = a1 b1`, `c1 = (a0 + a1)(b0 + b1) - v0 - v1`,
    /// `c0 = v0 + v * v1`.
    pub fn mul(&self, other: &Self, cfg: &C) -> (r: Self)
        requires
            cfg.wf(),
            q_valid(cfg.base_spec(), self@),
            q_valid(cfg.base_spec(), other@),
        ensures
            r@ == q_mul(cfg.base_spec(), self@, other@),
    {
        let b = cfg.base();
        let v0 = self.c0.mul(&other.c0, b);
        let v1 = self.c1.mul(&other.c1, b);
        let sa = self.c0.add(&self.c1, b);
        let sb = other.c0.add(&other.c1, b);
        let t = sa.mul(&sb, b);
        let u = t.sub(&v0, b);
        let c1 = u.sub(&v1, b);
        let mut nv1 = v1;
        cfg.mul_base_field_by_nonresidue_in_place(&mut nv1);
        let c0 = v0.add(&nv1, b);
        proof {
            let bs = cfg.base_spec();
            let (p, n) = (bs.p(), bs.n());
            let (a0, a1, b0, b1) = (self.c0@, self.c1@, other.c0@, other.c1@);
            let big = g_mul(n, g_add(a0, a1), g_add(b0, b1));
            lemma_reduced_ops(bs, a0, a1);
            lemma_reduced_ops(bs, b0, b1);
            lemma_reduced_ops(bs, sa@, sb@);
            lemma_cong2_ops(p, n, sa@, g_add(a0, a1), sb@, g_add(b0, b1));
            lemma_reduced_ops(bs, a0, b0);
            lemma_reduced_ops(bs, a1, b1);
            lemma_reduced_ops(bs, t@, v0@);
            lemma_cong2_ops(p, n, t@, big, v0@, g_mul(n, a0, b0));
            lemma_reduced_ops(bs, u@, v1@);
            lemma_cong2_ops(p, n, u@, g_sub(big, g_mul(n, a0, b0)), v1@, g_mul(n, a1, b1));
            lemma_karatsuba_identity(n, a0, a1, b0, b1);
            lemma_reduced_ops(bs, a0, b1);
            lemma_reduced_ops(bs, a1, b0);
            lemma_reduced_ops(bs, bs.mul_spec(a0, b1), bs.mul_spec(a1, b0));
            lemma_cong2_ops(
                p,
                n,
                bs.mul_spec(a0, b1),
                g_mul(n, a0, b1),
                bs.mul_spec(a1, b0),
                g_mul(n, a1, b0),
            );
            lemma_cong2_eq(bs, c1@, q_mul(bs, self@, other@).1);
        }
        QuadExtField { c0, c1, config: PhantomData }
    }

    /// Squaring with two base-field products:
    /// `v0 = a0 a1`, `c0 = (a0 + a1)(a0 + v a1) - v0 - v v0`, `c1 = 2 v0`.
    pub fn square(&self, cfg: &C) -> (r: Self)
        requires
            cfg.wf(),
            q_valid(cfg.base_spec(), self@),
        ensures
            r@ == q_mul(cfg.base_spec(), self@, self@),
    {
        let b = cfg.base();
        let v0 = self.c0.mul(&self.c1, b);
        let mut va1 = self.c1;
        cfg.mul_base_field_by_nonresidue_in_place(&mut va1);
        let s = self.c0.add(&self.c1, b);
        let t = self.c0.add(&va1, b);
        let st = s.mul(&t, b);
        let mut nv0 = v0;
        cfg.mul_base_field_by_nonresidue_in_place(&mut nv0);
        let w = st.sub(&v0, b);
        let c0 = w.sub(&nv0, b);
        let c1 = v0.add(&v0, b);
        proof {
            let bs = cfg.base_spec();
            let (p, n) = (bs.p(), bs.n());
            let (a0, a1) = (self.c0@, self.c1@);
            let zero: Fp2Value = (0, 0);
            let m01 = g_mul(n, a0, a1);
            let big = g_mul(n, g_add(a0, a1), g_add(a0, g_mul_by_v(n, a1)));
            lemma_reduced_ops(bs, a0, a1);
            lemma_reduced_ops(bs, a1, a0);
            lemma_reduced_ops(bs, a1, zero);
            lemma_reduced_ops(bs, a0, va1@);
            lemma_cong2_ops(p, n, a0, a0, va1@, g_mul_by_v(n, a1));
            lemma_reduced_ops(bs, s@, t@);
            lemma_cong2_ops(p, n, s@, g_add(a0, a1), t@, g_add(a0, g_mul_by_v(n, a1)));
            lemma_reduced_ops(bs, v0@, zero);
            lemma_cong2_ops(p, n, v0@, m01, v0@, m01);
            lemma_reduced_ops(bs, st@, v0@);
            lemma_cong2_ops(p, n, st@, big, v0@, m01);
            lemma_reduced_ops(bs, w@, nv0@);
            lemma_cong2_ops(p, n, w@, g_sub(big, m01), nv0@, g_mul_by_v(n, m01));
            lemma_square_identity(n, a0, a1);
            lemma_reduced_ops(bs, a0, a0);
            lemma_reduced_ops(bs, a1, a1);
            let s11 = bs.mul_spec(a1, a1);
            lemma_reduced_ops(bs, s11, zero);
            lemma_cong2_ops(p, n, s11, g_mul(n, a1, a1), s11, s11);
            lemma_reduced_ops(bs, bs.mul_spec(a0, a0), bs.mul_by_v_spec(s11));
            lemma_cong2_ops(
                p,
                n,
                bs.mul_spec(a0, a0),
                g_mul(n, a0, a0),
                bs.mul_by_v_spec(s11),
                g_mul_by_v(n, g_mul(n, a1, a1)),
            );
            lemma_cong2_eq(bs, c0@, q_mul(bs, self@, self@).0);
            lemma_reduced_ops(bs, bs.mul_spec(a0, a1), bs.mul_spec(a1, a0));
            lemma_cong2_ops(
                p,
                n,
                bs.mul_spec(a0, a1),
                m01,
                bs.mul_spec(a1, a0),
                g_mul(n, a1, a0),
            );
            lemma_cong2_eq(bs, c1@, q_mul(bs, self@, self@).1);
        }
        QuadExtField { c0, c1, config: PhantomData }
    }

    /// `self^(p^power)`.
    pub fn frobenius_map(&self, power: usize, cfg: &C) -> (r: Self)
        requires
            cfg.wf(),
            q_valid(cfg.base_spec(), self@),
        ensures
            r@ == q_frobenius(*cfg, self@, power as nat),
    {
        let b = cfg.base();
        let c0 = self.c0.frobenius_map(power, b);
        let mut c1 = self.c1.frobenius_map(power, b);
        proof {
            lemma_frobenius_valid(cfg.base_spec(), self.c1@, power as nat);
        }
        cfg.mul_base_field_by_frob_coeff(&mut c1, power);
        QuadExtField { c0, c1, config: PhantomData }
    }

    /// The inverse `conj(a) / N(a)` with norm `N(a) = a0^2 - v a1^2`, or
    /// `None` when the norm has no inverse in `Fp2` (always for zero).
    pub fn inverse(&self, cfg: &C) -> (r: Option<Self>)
        requires
            cfg.wf(),
            q_valid(cfg.base_spec(), self@),
        ensures
            self@ == q_zero() ==> r is None,
            cfg.base_spec().norm_spec(q_norm(cfg.base_spec(), self@)) == 0 ==> r is None,
            is_prime(cfg.base_spec().p()) && cfg.base_spec().norm_spec(
                q_norm(cfg.base_spec(), self@),
            ) != 0 ==> r is Some,
            r matches Some(x) ==> q_valid(cfg.base_spec(), x@) && q_mul(cfg.base_spec(), self@, x@)
                == q_one(),
    {
        let b = cfg.base();
        let t0 = self.c0.square(b);
        let t1 = self.c1.square(b);
        let mut nt1 = t1;
        cfg.mul_base_field_by_nonresidue_in_place(&mut nt1);
        let norm = t0.sub(&nt1, b);
        proof {
            let bs = cfg.base_spec();
            if self@ == q_zero() {
                vstd::arithmetic::div_mod::lemma_small_mod(0, bs.p() as nat);
                assert(bs.n() * 0 == 0);
                assert(t0@ == (0int, 0int));
                assert(t1@ == (0int, 0int));
                assert(nt1@ == (0int, 0int));
                assert(norm@ == (0int, 0int));
            }
        }
        match norm.inverse(b) {
            None => None,
            Some(inv) => {
                let c0 = self.c0.mul(&inv, b);
                let m = self.c1.mul(&inv, b);
                let c1 = m.neg(b);
                proof {
                    let bs = cfg.base_spec();
                    let (p, n) = (bs.p(), bs.n());
                    let (a0, a1, i) = (self.c0@, self.c1@, inv@);
                    let zero: Fp2Value = (0, 0);
                    let k = g_mul(n, a0, i);
                    let neg_m = g_sub(zero, g_mul(n, a1, i));
                    lemma_reduced_ops(bs, a0, i);
                    lemma_reduced_ops(bs, a1, i);
                    lemma_reduced_ops(bs, m@, zero);
                    lemma_cong2_ops(p, n, zero, zero, m@, g_mul(n, a1, i));
                    // the norm
                    lemma_reduced_ops(bs, a0, a0);
                    lemma_reduced_ops(bs, a1, a1);
                    lemma_reduced_ops(bs, t1@, zero);
                    lemma_cong2_ops(p, n, t1@, g_mul(n, a1, a1), t1@, t1@);
                    lemma_reduced_ops(bs, t0@, nt1@);
                    lemma_cong2_ops(
                        p,
                        n,
                        t0@,
                        g_mul(n, a0, a0),
                        nt1@,
                        g_mul_by_v(n, g_mul(n, a1, a1)),
                    );
                    let big_n = g_sub(g_mul(n, a0, a0), g_mul_by_v(n, g_mul(n, a1, a1)));
                    lemma_reduced_ops(bs, norm@, i);
                    lemma_cong2_ops(p, n, norm@, big_n, i, i);
                    lemma_inverse_identity(n, a0, a1, i);
                    // first coordinate of the product
                    lemma_reduced_ops(bs, a0, c0@);
                    lemma_reduced_ops(bs, a1, c1@);
                    lemma_cong2_ops(p, n, a0, a0, c0@, k);
                    lemma_cong2_ops(p, n, a1, a1, c1@, neg_m);
                    let s11 = bs.mul_spec(a1, c1@);
                    lemma_reduced_ops(bs, s11, zero);
                    lemma_cong2_ops(p, n, s11, g_mul(n, a1, neg_m), s11, s11);
                    lemma_reduced_ops(bs, bs.mul_spec(a0, c0@), bs.mul_by_v_spec(s11));
                    lemma_cong2_ops(
                        p,
                        n,
                        bs.mul_spec(a0, c0@),
                        g_mul(n, a0, k),
                        bs.mul_by_v_spec(s11),
                        g_mul_by_v(n, g_mul(n, a1, neg_m)),
                    );
                    lemma_cong2_eq(bs, q_mul(bs, self@, (c0@, c1@)).0, (1int, 0int));
                    // second coordinate of the product
                    lemma_reduced_ops(bs, a0, c1@);
                    lemma_reduced_ops(bs, a1, c0@);
                    lemma_cong2_ops(p, n, a0, a0, c1@, neg_m);
                    lemma_cong2_ops(p, n, a1, a1, c0@, k);
                    lemma_reduced_ops(bs, bs.mul_spec(a0, c1@), bs.mul_spec(a1, c0@));
                    lemma_cong2_ops(
                        p,
                        n,
                        bs.mul_spec(a0, c1@),
                        g_mul(n, a0, neg_m),
                        bs.mul_spec(a1, c0@),
                        g_mul(n, a1, k),
                    );
                    vstd::arithmetic::div_mod::lemma_small_mod(0, p as nat);
                    lemma_cong2_eq(bs, q_mul(bs, self@, (c0@, c1@)).1, zero);
                }
                Some(QuadExtField { c0, c1, config: PhantomData })
            },
        }
    }

    /// Inversion of an element of norm one: its conjugate. Zero gives
    /// `None`. For an element whose norm is not one the result is the
    /// conjugate all the same, which is then not an inverse.
    pub fn cyclotomic_inverse(&self, cfg: &C) -> (r: Option<Self>)
        requires
            cfg.wf(),
            q_valid(cfg.base_spec(), self@),
        ensures
            r is None <==> self@ == q_zero(),
            r matches Some(x) ==> x@ == q_conjugate(cfg.base_spec(), self@),
    {
        if self.is_zero() {
            None
        } else {
            Some(self.conjugate(cfg))
        }
    }

    /// In-place form of `cyclotomic_inverse`: returns whether `self` was
    /// replaced by its conjugate; zero is left as it is.
    pub fn cyclotomic_inverse_in_place(&mut self, cfg: &C) -> (r: bool)
        requires
            cfg.wf(),
            q_valid(cfg.base_spec(), old(self)@),
        ensures
            r == (old(self)@ != q_zero()),
            r ==> final(self)@ == q_conjugate(cfg.base_spec(), old(self)@),
            !r ==> final(self)@ == old(self)@,
    {
        if self.is_zero() {
            false
        } else {
            self.conjugate_in_place(cfg);
            true
        }
    }
}

} // verus!
