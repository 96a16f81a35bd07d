//! Arithmetic in the prime field `Z/pZ`, with elements held as reduced `u64`.
use vstd::arithmetic::div_mod::*;
use vstd::prelude::*;

verus! {

/// Two integers are congruent modulo `p`.
pub open spec fn cong(p: int, x: int, y: int) -> bool {
    x % p == y % p
}

pub proof fn lemma_cong_refl_mod(p: int, x: int)
    requires
        0 < p,
    ensures
        cong(p, x % p, x),
        0 <= x % p < p,
{
    lemma_mod_bound(x, p);
    lemma_small_mod((x % p) as nat, p as nat);
}

pub proof fn lemma_cong_add(p: int, x: int, x2: int, y: int, y2: int)
    requires
        0 < p,
        cong(p, x, x2),
        cong(p, y, y2),
    ensures
        cong(p, x + y, x2 + y2),
{
    lemma_add_mod_noop(x, y, p);
    lemma_add_mod_noop(x2, y2, p);
}

pub proof fn lemma_cong_sub(p: int, x: int, x2: int, y: int, y2: int)
    requires
        0 < p,
        cong(p, x, x2),
        cong(p, y, y2),
    ensures
        cong(p, x - y, x2 - y2),
{
    lemma_sub_mod_noop(x, y, p);
    lemma_sub_mod_noop(x2, y2, p);
}

pub proof fn lemma_cong_mul(p: int, x: int, x2: int, y: int, y2: int)
    requires
        0 < p,
        cong(p, x, x2),
        cong(p, y, y2),
    ensures
        cong(p, x * y, x2 * y2),
{
    lemma_mul_mod_noop(x, y, p);
    lemma_mul_mod_noop(x2, y2, p);
}

/// `x + y mod p`.
pub fn fp_add(p: u64, a: u64, b: u64) -> (r: u64)
    requires
        0 < p,
        a < p,
        b < p,
    ensures
        r == (a + b) % (p as int),
{
    ((a as u128 + b as u128) % (p as u128)) as u64
}

/// `x - y mod p`.
pub fn fp_sub(p: u64, a: u64, b: u64) -> (r: u64)
    requires
        0 < p,
        a < p,
        b < p,
    ensures
        r == (a - b) % (p as int),
{
    proof {
        lemma_mod_add_multiples_vanish(a - b, p as int);
    }
    ((a as u128 + p as u128 - b as u128) % (p as u128)) as u64
}

/// `-x mod p`.
pub fn fp_neg(p: u64, a: u64) -> (r: u64)
    requires
        0 < p,
        a < p,
    ensures
        r == (-a) % (p as int),
{
    proof {
        lemma_mod_add_multiples_vanish(-a, p as int);
        if a > 0 {
            lemma_small_mod((p - a) as nat, p as nat);
        }
        lemma_mod_self_0(p as int);
    }
    if a == 0 {
        0
    } else {
        p - a
    }
}

/// `x * y mod p`.
pub fn fp_mul(p: u64, a: u64, b: u64) -> (r: u64)
    requires
        0 < p,
        a < p,
        b < p,
    ensures
        r == (a * b) % (p as int),
{
    assert(a * b <= u64::MAX * u64::MAX) by (nonlinear_arith)
        requires
            a <= u64::MAX,
            b <= u64::MAX,
            0 <= a,
            0 <= b,
    ;
    ((a as u128 * b as u128) % (p as u128)) as u64
}

/// `p` is prime: no integer strictly between one and `p` divides it.
pub open spec fn is_prime(p: int) -> bool {
    1 < p && forall|d: int| 1 < d < p ==> #[trigger] (p % d) != 0
}

proof fn lemma_divides_combination(d: int, x: int, y: int, q: int)
    requires
        d > 0,
        x % d == 0,
        y % d == 0,
    ensures
        (q * x + y) % d == 0,
{
    lemma_mul_mod_noop_right(q, x, d);
    lemma_add_mod_noop(q * x, y, d);
    lemma_small_mod(0, d as nat);
    assert(q * 0 == 0);
}

/// The multiplicative inverse of `a` modulo `p`, by the extended Euclidean
/// algorithm with coefficients kept modulo `p`. It exists exactly when `a`
/// and `p` are coprime; for a prime `p` that is every non-zero `a`.
pub fn fp_inverse(p: u64, a: u64) -> (r: Option<u64>)
    requires
        1 < p,
        a < p,
    ensures
        a == 0 ==> r is None,
        r matches Some(x) ==> x < p && (a * x) % (p as int) == 1,
        is_prime(p as int) && a != 0 ==> r is Some,
{
    let ghost pp = p as int;
    let mut r0: u64 = p;
    let mut r1: u64 = a;
    let mut s0: u64 = 0;
    let mut s1: u64 = 1;
    proof {
        lemma_small_mod(a as nat, p as nat);
        lemma_small_mod(1, p as nat);
        lemma_mod_self_0(pp);
        lemma_small_mod(0, p as nat);
        assert(1 * a == a);
    }
    while r1 != 0
        invariant
            1 < p,
            a < p,
            pp == p as int,
            r1 < r0 || (r0 == p && r1 == a),
            r0 > 0,
            s0 < p,
            s1 < p,
            cong(pp, r0 as int, s0 * a),
            cong(pp, r1 as int, s1 * a),
            forall|d: int|
                d > 0 && #[trigger] ((r0 as int) % d) == 0 && (r1 as int) % d == 0 ==> pp % d
                    == 0 && (a as int) % d == 0,
        decreases r1,
    {
        let q = r0 / r1;
        let rem = r0 % r1;
        let qs1 = fp_mul(p, q % p, s1);
        let s_new = fp_sub(p, s0, qs1);
        proof {
            let (x0, x1, t0, t1, qi) = (r0 as int, r1 as int, s0 as int, s1 as int, q as int);
            lemma_fundamental_div_mod(x0, x1);
            assert(x0 == x1 * qi + (rem as int));
            // the new remainder keeps its coefficient
            lemma_cong_refl_mod(pp, qi);
            lemma_cong_mul(pp, (qi % pp), qi, t1, t1);
            lemma_cong_refl_mod(pp, (qi % pp) * t1);
            lemma_cong_sub(pp, t0, t0, qs1 as int, qi * t1);
            lemma_cong_refl_mod(pp, t0 - qs1);
            lemma_cong_mul(pp, t0 - qi * t1, s_new as int, a as int, a as int);
            assert((t0 - qi * t1) * a == t0 * a - qi * (t1 * a)) by (nonlinear_arith);
            lemma_cong_mul(pp, qi, qi, x1, t1 * a);
            lemma_cong_sub(pp, x0, t0 * a, qi * x1, qi * (t1 * a));
            assert(x0 - qi * x1 == rem as int) by (nonlinear_arith)
                requires
                    x0 == x1 * qi + (rem as int),
            ;
            // common divisors are kept
            assert forall|d: int|
                d > 0 && #[trigger] (x1 % d) == 0 && (rem as int) % d == 0 implies pp % d == 0 && (
                a as int) % d == 0 by {
                lemma_divides_combination(d, x1, rem as int, qi);
                assert(qi * x1 + (rem as int) == x0) by (nonlinear_arith)
                    requires
                        x0 == x1 * qi + (rem as int),
                ;
            }
        }
        r0 = r1;
        r1 = rem;
        s0 = s1;
        s1 = s_new;
    }
    let check = fp_mul(p, a, s0);
    proof {
        lemma_small_mod(1, p as nat);
        lemma_small_mod(0, p as nat);
        if a == 0 {
            assert(a * s0 == 0);
        }
        if is_prime(pp) && a != 0 {
            let g = r0 as int;
            lemma_mod_self_0(g);
            assert(g % g == 0 && 0int % g == 0);
            assert(pp % g == 0 && (a as int) % g == 0);
            if g > a {
                lemma_small_mod(a as nat, g as nat);
            }
            assert(g <= a);
            if g > 1 {
                assert(pp % g != 0);
            }
            assert(g == 1);
            assert((s0 * a) % pp == 1);
            assert(a * s0 == s0 * a);
        }
    }
    if check == 1 {
        Some(s0)
    } else {
        None
    }
}

} // verus!
