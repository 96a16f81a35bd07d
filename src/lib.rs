//! Tower extension fields over a prime field: a quadratic base field `Fp2`,
//! a generic quadratic-extension engine over it, and the degree-4 and
//! degree-8 configurations that instantiate the engine.
pub mod fp;
pub mod fp2;
pub mod quadratic_extension;
pub mod fp4_modular;
pub mod fp8;
pub mod field_laws;
