use tower_fields::fp::{fp_add, fp_inverse, fp_mul, fp_neg, fp_sub};
use tower_fields::fp2::{Fp2, Fp2Config};
use tower_fields::fp4_modular::{Fp4Modular, Fp4ModularConfig, Fp4ModularConfigWrapper, Fp4ModularParams};
use tower_fields::fp8::{Fp8, Fp8Config, Fp8ConfigWrapper, Fp8Params};
use tower_fields::quadratic_extension::CYCLOTOMIC_INVERSE_IS_FAST;

/// `Fp2` over `F_13` with `v^2 = -1`. Minus one is a square modulo 13
/// (5 * 5 = 25 = -1), so this ring has zero divisors.
fn fp2_minus_one() -> Fp2Config {
    Fp2Config { modulus: 13, nonresidue: 12, frobenius_coeff_fp2_c1: vec![1, 12] }
}

/// `Fp2` over `F_13` with `v^2 = 2`, a genuine non-residue.
fn fp2_two() -> Fp2Config {
    Fp2Config { modulus: 13, nonresidue: 2, frobenius_coeff_fp2_c1: vec![1, 12] }
}

type Fp4 = Fp4Modular<Fp4ModularParams>;

fn fp4_config(fp2: Fp2Config) -> Fp4ModularConfigWrapper<Fp4ModularParams> {
    Fp4ModularConfigWrapper {
        params: Fp4ModularParams {
            fp2,
            nonresidue: Fp2::new(0, 1),
            frobenius_coeff_fp4_c1: vec![
                Fp2::new(1, 0),
                Fp2::new(8, 0),
                Fp2::new(12, 0),
                Fp2::new(5, 0),
            ],
        },
    }
}

fn fp8_config() -> Fp8ConfigWrapper<Fp8Params> {
    Fp8ConfigWrapper {
        params: Fp8Params {
            fp2: fp2_two(),
            nonresidue: Fp2::new(0, 1),
            frobenius_coeff_fp8_c1: vec![1, 8, 12, 5, 1, 8, 12, 5],
        },
    }
}

fn q4(a: u64, b: u64, c: u64, d: u64) -> Fp4 {
    Fp4::new(Fp2::new(a, b), Fp2::new(c, d))
}

fn same(x: &Fp4, y: &Fp4) -> bool {
    x.c0 == y.c0 && x.c1 == y.c1
}

#[test]
fn prime_field_operations() {
    assert_eq!(fp_add(13, 9, 7), 3);
    assert_eq!(fp_sub(13, 3, 7), 9);
    assert_eq!(fp_neg(13, 0), 0);
    assert_eq!(fp_neg(13, 5), 8);
    assert_eq!(fp_mul(13, 9, 7), 11);
    assert_eq!(fp_inverse(13, 12), Some(12));
    assert_eq!(fp_inverse(13, 0), None);
    let big = u64::MAX - 58; // the largest 64-bit prime
    assert_eq!(fp_mul(big, big - 1, big - 1), 1);
    assert_eq!(fp_add(big, big - 1, big - 1), big - 2);
    let inv = fp_inverse(big, 2).unwrap();
    assert_eq!(fp_mul(big, 2, inv), 1);
    // a modulus that shares a factor with the input gives no inverse
    assert_eq!(fp_inverse(12, 4), None);
    assert_eq!(fp_inverse(12, 5), Some(5));
}

#[test]
fn fp2_square_matches_mul_minus_one() {
    let cfg = fp2_minus_one();
    let a = Fp2::new(2, 3);
    assert_eq!(a.mul(&a, &cfg), a.square(&cfg));
    assert_eq!(a.square(&cfg), Fp2::new(8, 12));
}

#[test]
fn fp2_zero_divisor_has_no_inverse() {
    // (2 + 3v)(2 - 3v) = 4 + 9 = 13 = 0 when v^2 = -1 over F_13.
    let cfg = fp2_minus_one();
    let a = Fp2::new(2, 3);
    assert_eq!(a.mul(&a.conjugate(&cfg), &cfg), Fp2::new(0, 0));
    assert_eq!(a.inverse(&cfg), None);
}

#[test]
fn fp2_inverse_with_true_nonresidue() {
    let cfg = fp2_two();
    let a = Fp2::new(2, 3);
    let inv = a.inverse(&cfg).unwrap();
    assert_eq!(inv, Fp2::new(11, 3));
    assert_eq!(a.mul(&inv, &cfg), Fp2::new(1, 0));
    assert_eq!(Fp2::new(0, 0).inverse(&cfg), None);
}

#[test]
fn fp2_karatsuba_matches_schoolbook() {
    let cfg = fp2_two();
    let (a0, a1, b0, b1) = (7u64, 11u64, 5u64, 9u64);
    let r = Fp2::new(a0, a1).mul(&Fp2::new(b0, b1), &cfg);
    assert_eq!(r, Fp2::new((a0 * b0 + 2 * a1 * b1) % 13, (a0 * b1 + a1 * b0) % 13));
}

#[test]
fn fp2_frobenius() {
    let cfg = fp2_two();
    let a = Fp2::new(4, 5);
    assert_eq!(a.frobenius_map(0, &cfg), a);
    assert_eq!(a.frobenius_map(1, &cfg), Fp2::new(4, 8));
    assert_eq!(a.frobenius_map(2, &cfg), a);
}

#[test]
fn fp2_mul_by_fp_and_nonresidue() {
    let cfg = fp2_two();
    assert_eq!(Fp2::new(4, 5).mul_by_fp(3, &cfg), Fp2::new(12, 2));
    let mut x: u64 = 9;
    cfg.mul_fp_by_nonresidue_in_place(&mut x);
    assert_eq!(x, 5);
}

#[test]
fn fp4_conjugate_and_norm() {
    let cfg = fp4_config(fp2_minus_one());
    let b = q4(1, 0, 0, 1);
    let c = b.conjugate(&cfg);
    assert!(same(&c, &q4(1, 0, 0, 12)));
    let prod = b.mul(&c, &cfg);
    assert_eq!(prod.c1, Fp2::new(0, 0));
}

#[test]
fn fp4_nonresidue_multiplication_swaps() {
    let cfg = fp4_config(fp2_two());
    let mut fe = Fp2::new(3, 4);
    cfg.params.mul_fp2_by_nonresidue_in_place(&mut fe);
    assert_eq!(fe, Fp2::new(8, 3));
}

#[test]
fn fp4_arithmetic() {
    let cfg = fp4_config(fp2_two());
    let a = q4(1, 2, 3, 4);
    let b = q4(5, 6, 7, 8);
    // schoolbook: c0 = a0 b0 + v a1 b1, c1 = a0 b1 + a1 b0
    let r = a.mul(&b, &cfg);
    assert!(same(&r, &q4(3, 10, 11, 8)));
    assert!(same(&a.square(&cfg), &a.mul(&a, &cfg)));
    assert!(same(&a.add(&b, &cfg), &q4(6, 8, 10, 12)));
    assert!(same(&a.sub(&b, &cfg), &q4(9, 9, 9, 9)));
    assert!(same(&a.neg(&cfg), &q4(12, 11, 10, 9)));
    assert!(same(&a.mul(&b, &cfg), &b.mul(&a, &cfg)));
    assert!(same(&a.mul(&Fp4::one(), &cfg), &a));
    assert!(same(&a.add(&Fp4::zero(), &cfg), &a));
}

#[test]
fn fp4_inverse() {
    let cfg = fp4_config(fp2_two());
    let a = q4(1, 2, 3, 4);
    let inv = a.inverse(&cfg).unwrap();
    assert!(same(&a.mul(&inv, &cfg), &Fp4::one()));
    assert!(Fp4::zero().inverse(&cfg).is_none());
}

#[test]
fn fp4_frobenius() {
    let cfg = fp4_config(fp2_two());
    let a = q4(1, 2, 3, 4);
    assert!(same(&a.frobenius_map(0, &cfg), &a));
    assert!(same(&a.frobenius_map(4, &cfg), &a));
    assert!(same(&a.frobenius_map(1, &cfg), &q4(1, 11, 11, 7)));
    let twice = a.frobenius_map(1, &cfg).frobenius_map(2, &cfg);
    assert!(same(&twice, &a.frobenius_map(3, &cfg)));
    let wrap = a.frobenius_map(3, &cfg).frobenius_map(2, &cfg);
    assert!(same(&wrap, &a.frobenius_map(1, &cfg)));
}

#[test]
fn fp4_mul_by_fp_and_fp2() {
    let cfg = fp4_config(fp2_two());
    let mut a = q4(1, 2, 3, 4);
    a.mul_by_fp(&2, &cfg);
    assert!(same(&a, &q4(2, 4, 6, 8)));
    let mut b = q4(1, 2, 3, 4);
    b.mul_by_fp2(&Fp2::new(0, 1), &cfg);
    assert!(same(&b, &q4(4, 1, 8, 3)));
    let c = q4(1, 2, 3, 4).mul_by_base_field(&Fp2::new(0, 1), &cfg);
    assert!(same(&c, &b));
}

#[test]
fn fp4_cyclotomic_inverse() {
    let cfg = fp4_config(fp2_two());
    assert!(CYCLOTOMIC_INVERSE_IS_FAST);
    // a norm-one element: a * conj(a) = 1 for a = 8u + 0 ... take a Frobenius
    // quotient x^(p^2) / x, which always has norm one.
    let x = q4(1, 2, 3, 4);
    let a = x.frobenius_map(2, &cfg).mul(&x.inverse(&cfg).unwrap(), &cfg);
    assert!(same(&a.mul(&a.conjugate(&cfg), &cfg), &Fp4::one()));
    let fast = a.cyclotomic_inverse(&cfg).unwrap();
    let slow = a.inverse(&cfg).unwrap();
    assert!(same(&fast, &slow));
    assert!(Fp4::zero().cyclotomic_inverse(&cfg).is_none());
    let mut z = Fp4::zero();
    assert!(!z.cyclotomic_inverse_in_place(&cfg));
    let mut y = q4(1, 2, 3, 4);
    assert!(y.cyclotomic_inverse_in_place(&cfg));
    assert!(same(&y, &q4(1, 2, 10, 9)));
}

#[test]
fn fp8_operations() {
    let cfg = fp8_config();
    let a = Fp8::<Fp8Params>::new(Fp2::new(1, 2), Fp2::new(3, 4));
    let f = a.frobenius_map(9, &cfg);
    assert_eq!(f.c0, Fp2::new(1, 11));
    assert_eq!(f.c1, Fp2::new(11, 7));
    let back = a.frobenius_map(8, &cfg);
    assert_eq!(back.c0, a.c0);
    assert_eq!(back.c1, a.c1);
    let mut b = Fp8::<Fp8Params>::new(Fp2::new(1, 2), Fp2::new(3, 4));
    b.mul_by_fp(&3, &cfg);
    assert_eq!(b.c0, Fp2::new(3, 6));
    assert_eq!(b.c1, Fp2::new(9, 12));
    let mut c = Fp8::<Fp8Params>::new(Fp2::new(1, 2), Fp2::new(3, 4));
    c.mul_by_fp2(&Fp2::new(2, 0), &cfg);
    assert_eq!(c.c1, Fp2::new(6, 8));
    let inv = a.inverse(&cfg).unwrap();
    let one = a.mul(&inv, &cfg);
    assert_eq!(one.c0, Fp2::new(1, 0));
    assert_eq!(one.c1, Fp2::new(0, 0));
    let mut fe = Fp2::new(3, 4);
    cfg.params.mul_fp2_by_nonresidue_in_place(&mut fe);
    assert_eq!(fe, Fp2::new(8, 3));
}

#[test]
fn nonresidues_have_no_square_root() {
    let cfg = fp2_two();
    for x in 0..13u64 {
        assert_ne!(fp_mul(13, x, x), 2);
    }
    for a in 0..13u64 {
        for b in 0..13u64 {
            assert_ne!(Fp2::new(a, b).square(&cfg), Fp2::new(0, 1));
        }
    }
}

#[test]
fn minus_one_is_a_square_modulo_thirteen() {
    assert_eq!(fp_mul(13, 5, 5), 12);
}

#[test]
fn fp4_ring_laws_on_values() {
    let cfg = fp4_config(fp2_two());
    let a = q4(1, 2, 3, 4);
    let b = q4(5, 6, 7, 8);
    let c = q4(9, 10, 11, 12);
    let ab_c = a.mul(&b, &cfg).mul(&c, &cfg);
    let a_bc = a.mul(&b.mul(&c, &cfg), &cfg);
    assert!(same(&ab_c, &a_bc));
    let lhs = a.mul(&b.add(&c, &cfg), &cfg);
    let rhs = a.mul(&b, &cfg).add(&a.mul(&c, &cfg), &cfg);
    assert!(same(&lhs, &rhs));
    assert!(same(&a.add(&b, &cfg).add(&c, &cfg), &a.add(&b.add(&c, &cfg), &cfg)));
    assert!(same(&a.add(&b, &cfg), &b.add(&a, &cfg)));
    let prod = a.mul(&a.conjugate(&cfg), &cfg);
    assert_eq!(prod.c1, Fp2::new(0, 0));
}

#[test]
fn fp4_frobenius_composition_on_values() {
    let cfg = fp4_config(fp2_two());
    let a = q4(6, 7, 8, 9);
    for i in 0..6usize {
        for j in 0..6usize {
            let lhs = a.frobenius_map(i, &cfg).frobenius_map(j, &cfg);
            let rhs = a.frobenius_map((i + j) % 4, &cfg);
            assert!(same(&lhs, &rhs));
        }
    }
}
