//! The degree-4 tower: the quadratic engine over `Fp2` with non-residue
//! `v = (0, 1)` and Frobenius coefficients in `Fp2`.
use crate::fp2::{Fp2, Fp2Config, Fp2Value};
use crate::quadratic_extension::{q_scale_fp, q_scale_fp2, q_valid, QuadExtConfig, QuadExtField};
use vstd::prelude::*;

verus! {

/// The constants of a degree-4 tower.
pub trait Fp4ModularConfig: Sized {
    /// The base field `Fp2`.
    spec fn fp2_spec(&self) -> Fp2Config;

    /// The non-residue of `Fp2` adjoined as `u^2`; it must equal `(0, 1)`.
    spec fn nonresidue_spec(&self) -> Fp2Value;

    /// `nonresidue^((p^i - 1) / 4)` for `i = 0, 1, 2, 3`.
    spec fn frobenius_coeff_spec(&self) -> Seq<Fp2Value>;

    fn fp2(&self) -> (r: &Fp2Config)
        ensures
            *r == self.fp2_spec(),
    ;

    fn nonresidue(&self) -> (r: Fp2)
        ensures
            r@ == self.nonresidue_spec(),
    ;

    fn frobenius_coeff_fp4_c1(&self, i: usize) -> (r: Fp2)
        requires
            i < 4,
            self.frobenius_coeff_spec().len() == 4,
        ensures
            r@ == self.frobenius_coeff_spec()[i as int],
    ;

    /// Multiplies an `Fp2` element by the non-residue `(0, 1)`: the
    /// coordinates swap, and the new first one is multiplied by the
    /// non-residue of the prime field.
    fn mul_fp2_by_nonresidue_in_place(&self, fe: &mut Fp2)
        requires
            self.fp2_spec().wf(),
            self.fp2_spec().valid(old(fe)@),
        ensures
            final(fe)@ == self.fp2_spec().mul_by_v_spec(old(fe)@),
    {
        let new_c1 = fe.c0;
        self.fp2().mul_fp_by_nonresidue_in_place(&mut fe.c1);
        fe.c0 = fe.c1;
        fe.c1 = new_c1;
        proof {
            vstd::arithmetic::div_mod::lemma_small_mod(new_c1 as nat, self.fp2_spec().modulus as nat);
        }
    }
}

/// The base field is well formed, the non-residue is `(0, 1)` and the
/// Frobenius table holds four reduced `Fp2` elements.
pub open spec fn fp4_config_wf<P: Fp4ModularConfig>(c: &P) -> bool {
    &&& c.fp2_spec().wf()
    &&& c.nonresidue_spec() == (0int, 1int)
    &&& c.frobenius_coeff_spec().len() == 4
    &&& c.frobenius_coeff_spec()[0] == (1int, 0int)
    &&& forall|i: int| 0 <= i < 4 ==> #[trigger] c.fp2_spec().valid(c.frobenius_coeff_spec()[i])
}

/// Degree-4 constants held as values.
pub struct Fp4ModularParams {
    pub fp2: Fp2Config,
    pub nonresidue: Fp2,
    pub frobenius_coeff_fp4_c1: Vec<Fp2>,
}

impl Fp4ModularConfig for Fp4ModularParams {
    open spec fn fp2_spec(&self) -> Fp2Config {
        self.fp2
    }

    open spec fn nonresidue_spec(&self) -> Fp2Value {
        self.nonresidue@
    }

    open spec fn frobenius_coeff_spec(&self) -> Seq<Fp2Value> {
        self.frobenius_coeff_fp4_c1@.map_values(|e: Fp2| e@)
    }

    fn fp2(&self) -> (r: &Fp2Config) {
        &self.fp2
    }

    fn nonresidue(&self) -> (r: Fp2) {
        self.nonresidue
    }

    fn frobenius_coeff_fp4_c1(&self, i: usize) -> (r: Fp2) {
        self.frobenius_coeff_fp4_c1[i]
    }
}

/// Binds a degree-4 configuration to the quadratic-extension engine.
pub struct Fp4ModularConfigWrapper<P: Fp4ModularConfig> {
    pub params: P,
}

impl<P: Fp4ModularConfig> QuadExtConfig for Fp4ModularConfigWrapper<P> {
    open spec fn wf(&self) -> bool {
        fp4_config_wf(&self.params)
    }

    open spec fn base_spec(&self) -> Fp2Config {
        self.params.fp2_spec()
    }

    open spec fn degree(&self) -> nat {
        4
    }

    open spec fn frob_coeff(&self, power: nat) -> Fp2Value {
        self.params.frobenius_coeff_spec()[(power % 4) as int]
    }

    fn base(&self) -> (r: &Fp2Config) {
        self.params.fp2()
    }

    fn mul_base_field_by_nonresidue_in_place(&self, fe: &mut Fp2) {
        self.params.mul_fp2_by_nonresidue_in_place(fe);
    }

    proof fn lemma_frobenius_table(&self) {
        assert forall|power: nat| #[trigger] self.frob_coeff(power) == self.frob_coeff(
            power % self.degree(),
        ) by {
            vstd::arithmetic::div_mod::lemma_mod_twice(power as int, 4);
        }
        assert forall|power: nat| #[trigger] self.base_spec().valid(self.frob_coeff(power)) by {
            assert(0 <= (power % 4) < 4);
        }
    }

    fn mul_base_field_by_frob_coeff(&self, fe: &mut Fp2, power: usize) {
        let coeff = self.params.frobenius_coeff_fp4_c1(power % 4);
        proof {
            assert(self.params.fp2_spec().valid(coeff@));
        }
        *fe = fe.mul(&coeff, self.params.fp2());
    }
}

/// An element of the degree-4 field.
pub type Fp4Modular<P> = QuadExtField<Fp4ModularConfigWrapper<P>>;

impl<P: Fp4ModularConfig> Fp4Modular<P> {
    /// Scales both coordinates by a prime-field element.
    pub fn mul_by_fp(&mut self, element: &u64, cfg: &Fp4ModularConfigWrapper<P>)
        requires
            cfg.wf(),
            q_valid(cfg.base_spec(), old(self)@),
            *element < cfg.base_spec().modulus,
        ensures
            final(self)@ == q_scale_fp(cfg.base_spec(), old(self)@, *element as int),
    {
        let b = cfg.base();
        self.c0 = self.c0.mul_by_fp(*element, b);
        self.c1 = self.c1.mul_by_fp(*element, b);
    }

    /// Scales both coordinates by an `Fp2` element.
    pub fn mul_by_fp2(&mut self, element: &Fp2, cfg: &Fp4ModularConfigWrapper<P>)
        requires
            cfg.wf(),
            q_valid(cfg.base_spec(), old(self)@),
            cfg.base_spec().valid(element@),
        ensures
            final(self)@ == q_scale_fp2(cfg.base_spec(), old(self)@, element@),
    {
        let b = cfg.base();
        self.c0 = self.c0.mul(element, b);
        self.c1 = self.c1.mul(element, b);
    }
}

} // verus!
