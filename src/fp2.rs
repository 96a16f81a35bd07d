//! The quadratic base field `Fp2 = Fp[v] / (v^2 - n)`, where `n` is a
//! quadratic non-residue of the prime field.
use crate::fp::{
    cong, fp_add, is_prime, fp_inverse, fp_mul, fp_neg, fp_sub, lemma_cong_add, lemma_cong_mul, lemma_cong_refl_mod,
    lemma_cong_sub,
};
use vstd::prelude::*;

verus! {

/// A pair of integers: the mathematical value of an `Fp2` element,
/// `c0 + c1 * v`.
pub type Fp2Value = (int, int);

/// The parameters of `Fp2`: the prime modulus, the non-residue `n` with
/// `v^2 = n`, and the Frobenius coefficients `n^((p^i - 1) / 2)` for
/// `i = 0, 1`.
pub struct Fp2Config {
    pub modulus: u64,
    pub nonresidue: u64,
    pub frobenius_coeff_fp2_c1: Vec<u64>,
}

/// An element `c0 + c1 * v` of `Fp2`, both coordinates reduced modulo `p`.
#[derive(Clone, Copy, Debug, PartialEq, Eq, Structural)]
pub struct Fp2 {
    pub c0: u64,
    pub c1: u64,
}

impl View for Fp2 {
    type V = Fp2Value;

    open spec fn view(&self) -> Fp2Value {
        (self.c0 as int, self.c1 as int)
    }
}

impl Fp2Config {
    pub open spec fn p(self) -> int {
        self.modulus as int
    }

    pub open spec fn n(self) -> int {
        self.nonresidue as int
    }

    /// The Frobenius coefficient used at power `i`.
    pub open spec fn frob_coeff(self, i: nat) -> int {
        self.frobenius_coeff_fp2_c1@[(i % 2) as int] as int
    }

    /// The modulus exceeds one, the non-residue is reduced, and the
    /// Frobenius table holds `1` and a square root of one.
    pub open spec fn wf(self) -> bool {
        &&& 1 < self.modulus
        &&& self.nonresidue < self.modulus
        &&& self.frobenius_coeff_fp2_c1@.len() == 2
        &&& self.frobenius_coeff_fp2_c1@[0] == 1
        &&& self.frobenius_coeff_fp2_c1@[1] < self.modulus
        &&& (self.frob_coeff(1) * self.frob_coeff(1)) % self.p() == 1
    }

    /// Both coordinates are reduced.
    pub open spec fn valid(self, a: Fp2Value) -> bool {
        0 <= a.0 < self.p() && 0 <= a.1 < self.p()
    }

    pub open spec fn zero_spec(self) -> Fp2Value {
        (0, 0)
    }

    pub open spec fn one_spec(self) -> Fp2Value {
        (1, 0)
    }

    pub open spec fn add_spec(self, a: Fp2Value, b: Fp2Value) -> Fp2Value {
        ((a.0 + b.0) % self.p(), (a.1 + b.1) % self.p())
    }

    pub open spec fn sub_spec(self, a: Fp2Value, b: Fp2Value) -> Fp2Value {
        ((a.0 - b.0) % self.p(), (a.1 - b.1) % self.p())
    }

    pub open spec fn neg_spec(self, a: Fp2Value) -> Fp2Value {
        ((-a.0) % self.p(), (-a.1) % self.p())
    }

    /// `(a0 + a1 v)(b0 + b1 v) = (a0 b0 + n a1 b1) + (a0 b1 + a1 b0) v`.
    pub open spec fn mul_spec(self, a: Fp2Value, b: Fp2Value) -> Fp2Value {
        (
            (a.0 * b.0 + self.n() * (a.1 * b.1)) % self.p(),
            (a.0 * b.1 + a.1 * b.0) % self.p(),
        )
    }

    /// The norm `a0^2 - n a1^2`, the product of an element and its
    /// conjugate.
    pub open spec fn norm_spec(self, a: Fp2Value) -> int {
        (a.0 * a.0 - self.n() * (a.1 * a.1)) % self.p()
    }

    /// Scaling by a prime-field element.
    pub open spec fn scale_spec(self, a: Fp2Value, s: int) -> Fp2Value {
        ((a.0 * s) % self.p(), (a.1 * s) % self.p())
    }

    pub open spec fn conjugate_spec(self, a: Fp2Value) -> Fp2Value {
        (a.0 % self.p(), (-a.1) % self.p())
    }

    /// Multiplication by `v`: `(a0 + a1 v) v = n a1 + a0 v`.
    pub open spec fn mul_by_v_spec(self, a: Fp2Value) -> Fp2Value {
        ((self.n() * a.1) % self.p(), a.0 % self.p())
    }

    /// `a^(p^power)`: the first coordinate stays, the second is scaled by the
    /// Frobenius coefficient.
    pub open spec fn frobenius_spec(self, a: Fp2Value, power: nat) -> Fp2Value {
        (a.0 % self.p(), (a.1 * self.frob_coeff(power)) % self.p())
    }

    /// Multiplies a prime-field element by the non-residue `n`.
    pub fn mul_fp_by_nonresidue_in_place(&self, fe: &mut u64)
        requires
            self.wf(),
            *old(fe) < self.modulus,
        ensures
            *final(fe) == (self.n() * *old(fe)) % self.p(),
    {
        *fe = fp_mul(self.modulus, self.nonresidue, *fe);
    }
}

impl Fp2 {
    pub fn new(c0: u64, c1: u64) -> (r: Fp2)
        ensures
            r.c0 == c0,
            r.c1 == c1,
    {
        Fp2 { c0, c1 }
    }

    pub fn zero() -> (r: Fp2)
        ensures
            r@ == (0int, 0int),
    {
        Fp2 { c0: 0, c1: 0 }
    }

    pub fn one() -> (r: Fp2)
        ensures
            r@ == (1int, 0int),
    {
        Fp2 { c0: 1, c1: 0 }
    }

    pub fn is_zero(&self) -> (r: bool)
        ensures
            r == (self@ == (0int, 0int)),
    {
        self.c0 == 0 && self.c1 == 0
    }

    pub fn add(&self, other: &Fp2, cfg: &Fp2Config) -> (r: Fp2)
        requires
            cfg.wf(),
            cfg.valid(self@),
            cfg.valid(other@),
        ensures
            r@ == cfg.add_spec(self@, other@),
    {
        let p = cfg.modulus;
        Fp2 { c0: fp_add(p, self.c0, other.c0), c1: fp_add(p, self.c1, other.c1) }
    }

    pub fn sub(&self, other: &Fp2, cfg: &Fp2Config) -> (r: Fp2)
        requires
            cfg.wf(),
            cfg.valid(self@),
            cfg.valid(other@),
        ensures
            r@ == cfg.sub_spec(self@, other@),
    {
        let p = cfg.modulus;
        Fp2 { c0: fp_sub(p, self.c0, other.c0), c1: fp_sub(p, self.c1, other.c1) }
    }

    pub fn neg(&self, cfg: &Fp2Config) -> (r: Fp2)
        requires
            cfg.wf(),
            cfg.valid(self@),
        ensures
            r@ == cfg.neg_spec(self@),
    {
        let p = cfg.modulus;
        Fp2 { c0: fp_neg(p, self.c0), c1: fp_neg(p, self.c1) }
    }

    pub fn conjugate(&self, cfg: &Fp2Config) -> (r: Fp2)
        requires
            cfg.wf(),
            cfg.valid(self@),
        ensures
            r@ == cfg.conjugate_spec(self@),
    {
        proof {
            lemma_cong_refl_mod(cfg.p(), self.c0 as int);
            vstd::arithmetic::div_mod::lemma_small_mod(self.c0 as nat, cfg.modulus as nat);
        }
        Fp2 { c0: self.c0, c1: fp_neg(cfg.modulus, self.c1) }
    }

    /// Scales both coordinates by a prime-field element.
    pub fn mul_by_fp(&self, s: u64, cfg: &Fp2Config) -> (r: Fp2)
        requires
            cfg.wf(),
            cfg.valid(self@),
            s < cfg.modulus,
        ensures
            r@ == cfg.scale_spec(self@, s as int),
    {
        let p = cfg.modulus;
        Fp2 { c0: fp_mul(p, self.c0, s), c1: fp_mul(p, self.c1, s) }
    }

    /// Karatsuba multiplication with three prime-field products:
    /// `v0 = a0 b0`, `v1 = a1 b1`, `c1 = (a0 + a1)(b0 + b1) - v0 - v1`,
    /// `c0 = v0 + n v1`.
    pub fn mul(&self, other: &Fp2, cfg: &Fp2Config) -> (r: Fp2)
        requires
            cfg.wf(),
            cfg.valid(self@),
            cfg.valid(other@),
        ensures
            r@ == cfg.mul_spec(self@, other@),
    {
        let p = cfg.modulus;
        let (a0, a1, b0, b1) = (self.c0, self.c1, other.c0, other.c1);
        let v0 = fp_mul(p, a0, b0);
        let v1 = fp_mul(p, a1, b1);
        let sa = fp_add(p, a0, a1);
        let sb = fp_add(p, b0, b1);
        let t = fp_mul(p, sa, sb);
        let u = fp_sub(p, t, v0);
        let c1 = fp_sub(p, u, v1);
        let nv1 = fp_mul(p, cfg.nonresidue, v1);
        let c0 = fp_add(p, v0, nv1);
        proof {
            let pp = cfg.p();
            let (x0, x1, y0, y1) = (a0 as int, a1 as int, b0 as int, b1 as int);
            lemma_cong_refl_mod(pp, x0 * y0);
            lemma_cong_refl_mod(pp, x1 * y1);
            lemma_cong_refl_mod(pp, x0 + x1);
            lemma_cong_refl_mod(pp, y0 + y1);
            lemma_cong_mul(pp, sa as int, x0 + x1, sb as int, y0 + y1);
            lemma_cong_refl_mod(pp, sa * sb);
            lemma_cong_sub(pp, t as int, (x0 + x1) * (y0 + y1), v0 as int, x0 * y0);
            lemma_cong_refl_mod(pp, t - v0);
            lemma_cong_sub(pp, u as int, (x0 + x1) * (y0 + y1) - x0 * y0, v1 as int, x1 * y1);
            lemma_cong_refl_mod(pp, u - v1);
            assert((x0 + x1) * (y0 + y1) - x0 * y0 - x1 * y1 == x0 * y1 + x1 * y0)
                by (nonlinear_arith);
            lemma_cong_refl_mod(pp, cfg.n() * v1);
            lemma_cong_mul(pp, cfg.n(), cfg.n(), v1 as int, x1 * y1);
            lemma_cong_add(pp, v0 as int, x0 * y0, nv1 as int, cfg.n() * (x1 * y1));
            lemma_cong_refl_mod(pp, v0 + nv1);
        }
        Fp2 { c0, c1 }
    }

    /// Squaring with two prime-field products and one multiplication by the
    /// non-residue: `v0 = a0 a1`, `c0 = (a0 + a1)(a0 + n a1) - v0 - n v0`,
    /// `c1 = 2 v0`.
    pub fn square(&self, cfg: &Fp2Config) -> (r: Fp2)
        requires
            cfg.wf(),
            cfg.valid(self@),
        ensures
            r@ == cfg.mul_spec(self@, self@),
    {
        let p = cfg.modulus;
        let (a0, a1) = (self.c0, self.c1);
        let v0 = fp_mul(p, a0, a1);
        let na1 = fp_mul(p, cfg.nonresidue, a1);
        let s = fp_add(p, a0, a1);
        let t = fp_add(p, a0, na1);
        let st = fp_mul(p, s, t);
        let nv0 = fp_mul(p, cfg.nonresidue, v0);
        let w = fp_sub(p, st, v0);
        let c0 = fp_sub(p, w, nv0);
        let c1 = fp_add(p, v0, v0);
        proof {
            let pp = cfg.p();
            let n = cfg.n();
            let (x0, x1) = (a0 as int, a1 as int);
            lemma_cong_refl_mod(pp, x0 * x1);
            lemma_cong_refl_mod(pp, n * x1);
            lemma_cong_refl_mod(pp, x0 + x1);
            lemma_cong_add(pp, x0, x0, na1 as int, n * x1);
            lemma_cong_refl_mod(pp, x0 + na1);
            lemma_cong_mul(pp, s as int, x0 + x1, t as int, x0 + n * x1);
            lemma_cong_refl_mod(pp, s * t);
            lemma_cong_mul(pp, n, n, v0 as int, x0 * x1);
            lemma_cong_refl_mod(pp, n * v0);
            lemma_cong_sub(pp, st as int, (x0 + x1) * (x0 + n * x1), v0 as int, x0 * x1);
            lemma_cong_refl_mod(pp, st - v0);
            lemma_cong_sub(
                pp,
                w as int,
                (x0 + x1) * (x0 + n * x1) - x0 * x1,
                nv0 as int,
                n * (x0 * x1),
            );
            lemma_cong_refl_mod(pp, w - nv0);
            assert((x0 + x1) * (x0 + n * x1) - x0 * x1 - n * (x0 * x1) == x0 * x0 + n * (x1
                * x1)) by (nonlinear_arith);
            lemma_cong_add(pp, v0 as int, x0 * x1, v0 as int, x0 * x1);
            lemma_cong_refl_mod(pp, v0 + v0);
            assert(x0 * x1 + x1 * x0 == x0 * x1 + x0 * x1) by (nonlinear_arith);
        }
        Fp2 { c0, c1 }
    }

    /// `self^(p^power)`.
    pub fn frobenius_map(&self, power: usize, cfg: &Fp2Config) -> (r: Fp2)
        requires
            cfg.wf(),
            cfg.valid(self@),
        ensures
            r@ == cfg.frobenius_spec(self@, power as nat),
    {
        proof {
            vstd::arithmetic::div_mod::lemma_small_mod(self.c0 as nat, cfg.modulus as nat);
        }
        let coeff = cfg.frobenius_coeff_fp2_c1[power % 2];
        Fp2 { c0: self.c0, c1: fp_mul(cfg.modulus, self.c1, coeff) }
    }

    /// The inverse `conj(a) / N(a)` with `N(a) = a0^2 - n a1^2`, or `None`
    /// when the norm has no inverse (always for zero). Modulo a prime, every
    /// non-zero norm has one.
    pub fn inverse(&self, cfg: &Fp2Config) -> (r: Option<Fp2>)
        requires
            cfg.wf(),
            cfg.valid(self@),
        ensures
            self@ == (0int, 0int) ==> r is None,
            cfg.norm_spec(self@) == 0 ==> r is None,
            is_prime(cfg.p()) && cfg.norm_spec(self@) != 0 ==> r is Some,
            r matches Some(x) ==> cfg.valid(x@) && cfg.mul_spec(self@, x@) == (1int, 0int),
    {
        let p = cfg.modulus;
        let (a0, a1) = (self.c0, self.c1);
        let t0 = fp_mul(p, a0, a0);
        let t1 = fp_mul(p, a1, a1);
        let nt1 = fp_mul(p, cfg.nonresidue, t1);
        let norm = fp_sub(p, t0, nt1);
        proof {
            let pp = cfg.p();
            let (x0, x1) = (a0 as int, a1 as int);
            lemma_cong_refl_mod(pp, x0 * x0);
            lemma_cong_refl_mod(pp, x1 * x1);
            lemma_cong_mul(pp, cfg.n(), cfg.n(), t1 as int, x1 * x1);
            lemma_cong_refl_mod(pp, cfg.n() * t1);
            lemma_cong_sub(pp, t0 as int, x0 * x0, nt1 as int, cfg.n() * (x1 * x1));
            lemma_cong_refl_mod(pp, t0 - nt1);
            assert(norm as int == cfg.norm_spec(self@));
            if a0 == 0 && a1 == 0 {
                vstd::arithmetic::div_mod::lemma_small_mod(0, p as nat);
                assert(t0 == 0 && t1 == 0);
                assert(cfg.n() * 0 == 0);
                assert(nt1 == 0);
                assert(norm == 0);
            }
        }
        match fp_inverse(p, norm) {
            None => None,
            Some(inv) => {
                let c0 = fp_mul(p, a0, inv);
                let m = fp_mul(p, a1, inv);
                let c1 = fp_neg(p, m);
                proof {
                    let pp = cfg.p();
                    let n = cfg.n();
                    let (x0, x1, i) = (a0 as int, a1 as int, inv as int);
                    lemma_cong_refl_mod(pp, x0 * i);
                    lemma_cong_refl_mod(pp, x1 * i);
                    lemma_cong_refl_mod(pp, -m);
                    lemma_cong_sub(pp, 0, 0, m as int, x1 * i);
                    lemma_cong_refl_mod(pp, x0 * x0);
                    lemma_cong_refl_mod(pp, x1 * x1);
                    lemma_cong_refl_mod(pp, n * t1);
                    lemma_cong_mul(pp, n, n, t1 as int, x1 * x1);
                    lemma_cong_sub(pp, t0 as int, x0 * x0, nt1 as int, n * (x1 * x1));
                    lemma_cong_refl_mod(pp, t0 - nt1);
                    lemma_cong_mul(pp, norm as int, x0 * x0 - n * (x1 * x1), i, i);
                    // first coordinate of a * x
                    lemma_cong_mul(pp, x0, x0, c0 as int, x0 * i);
                    lemma_cong_mul(pp, x1, x1, c1 as int, 0 - x1 * i);
                    lemma_cong_mul(pp, n, n, x1 * c1, x1 * (0 - x1 * i));
                    lemma_cong_add(pp, x0 * c0, x0 * (x0 * i), n * (x1 * c1), n * (x1 * (0 - x1
                        * i)));
                    assert(x0 * (x0 * i) + n * (x1 * (0 - x1 * i)) == (x0 * x0 - n * (x1 * x1))
                        * i) by (nonlinear_arith);
                    // second coordinate of a * x
                    lemma_cong_mul(pp, x0, x0, c1 as int, 0 - x1 * i);
                    lemma_cong_mul(pp, x1, x1, c0 as int, x0 * i);
                    lemma_cong_add(pp, x0 * c1, x0 * (0 - x1 * i), x1 * c0, x1 * (x0 * i));
                    assert(x0 * (0 - x1 * i) + x1 * (x0 * i) == 0) by (nonlinear_arith);
                    vstd::arithmetic::div_mod::lemma_small_mod(0, p as nat);
                }
                Some(Fp2 { c0, c1 })
            },
        }
    }
}

} // verus!

verus! {

// Unreduced arithmetic on pairs of integers, used to reason about reduced
// results up to congruence.
pub open spec fn cong2(p: int, x: Fp2Value, y: Fp2Value) -> bool {
    cong(p, x.0, y.0) && cong(p, x.1, y.1)
}

pub open spec fn g_add(x: Fp2Value, y: Fp2Value) -> Fp2Value {
    (x.0 + y.0, x.1 + y.1)
}

pub open spec fn g_sub(x: Fp2Value, y: Fp2Value) -> Fp2Value {
    (x.0 - y.0, x.1 - y.1)
}

pub open spec fn g_mul(n: int, x: Fp2Value, y: Fp2Value) -> Fp2Value {
    (x.0 * y.0 + n * (x.1 * y.1), x.0 * y.1 + x.1 * y.0)
}

pub open spec fn g_mul_by_v(n: int, x: Fp2Value) -> Fp2Value {
    (n * x.1, x.0)
}

/// Each reduced operation is congruent to its unreduced counterpart.
pub proof fn lemma_reduced_ops(c: Fp2Config, x: Fp2Value, y: Fp2Value)
    requires
        c.wf(),
    ensures
        cong2(c.p(), c.add_spec(x, y), g_add(x, y)),
        cong2(c.p(), c.sub_spec(x, y), g_sub(x, y)),
        cong2(c.p(), c.mul_spec(x, y), g_mul(c.n(), x, y)),
        cong2(c.p(), c.mul_by_v_spec(x), g_mul_by_v(c.n(), x)),
        cong2(c.p(), c.neg_spec(x), g_sub((0, 0), x)),
        c.valid(c.add_spec(x, y)),
        c.valid(c.sub_spec(x, y)),
        c.valid(c.mul_spec(x, y)),
        c.valid(c.mul_by_v_spec(x)),
        c.valid(c.neg_spec(x)),
{
    let p = c.p();
    lemma_cong_refl_mod(p, x.0 + y.0);
    lemma_cong_refl_mod(p, x.1 + y.1);
    lemma_cong_refl_mod(p, x.0 - y.0);
    lemma_cong_refl_mod(p, x.1 - y.1);
    lemma_cong_refl_mod(p, x.0 * y.0 + c.n() * (x.1 * y.1));
    lemma_cong_refl_mod(p, x.0 * y.1 + x.1 * y.0);
    lemma_cong_refl_mod(p, c.n() * x.1);
    lemma_cong_refl_mod(p, x.0);
    lemma_cong_refl_mod(p, -x.0);
    lemma_cong_refl_mod(p, -x.1);
    assert(0 - x.0 == -x.0 && 0 - x.1 == -x.1);
}

/// Unreduced operations respect congruence.
pub proof fn lemma_cong2_ops(p: int, n: int, x: Fp2Value, x2: Fp2Value, y: Fp2Value, y2: Fp2Value)
    requires
        0 < p,
        cong2(p, x, x2),
        cong2(p, y, y2),
    ensures
        cong2(p, g_add(x, y), g_add(x2, y2)),
        cong2(p, g_sub(x, y), g_sub(x2, y2)),
        cong2(p, g_mul(n, x, y), g_mul(n, x2, y2)),
        cong2(p, g_mul_by_v(n, x), g_mul_by_v(n, x2)),
{
    lemma_cong_add(p, x.0, x2.0, y.0, y2.0);
    lemma_cong_add(p, x.1, x2.1, y.1, y2.1);
    lemma_cong_sub(p, x.0, x2.0, y.0, y2.0);
    lemma_cong_sub(p, x.1, x2.1, y.1, y2.1);
    lemma_cong_mul(p, x.0, x2.0, y.0, y2.0);
    lemma_cong_mul(p, x.1, x2.1, y.1, y2.1);
    lemma_cong_mul(p, x.0, x2.0, y.1, y2.1);
    lemma_cong_mul(p, x.1, x2.1, y.0, y2.0);
    lemma_cong_mul(p, n, n, x.1 * y.1, x2.1 * y2.1);
    lemma_cong_add(p, x.0 * y.0, x2.0 * y2.0, n * (x.1 * y.1), n * (x2.1 * y2.1));
    lemma_cong_add(p, x.0 * y.1, x2.0 * y2.1, x.1 * y.0, x2.1 * y2.0);
    lemma_cong_mul(p, n, n, x.1, x2.1);
}

/// Two reduced values that are congruent are equal.
pub proof fn lemma_cong2_eq(c: Fp2Config, x: Fp2Value, y: Fp2Value)
    requires
        c.wf(),
        c.valid(x),
        c.valid(y),
        cong2(c.p(), x, y),
    ensures
        x == y,
{
    vstd::arithmetic::div_mod::lemma_small_mod(x.0 as nat, c.p() as nat);
    vstd::arithmetic::div_mod::lemma_small_mod(x.1 as nat, c.p() as nat);
    vstd::arithmetic::div_mod::lemma_small_mod(y.0 as nat, c.p() as nat);
    vstd::arithmetic::div_mod::lemma_small_mod(y.1 as nat, c.p() as nat);
}


} // verus!
