//! Arithmetic in the base fields of the Pallas and Vesta curves.
//!
//! Each field is a 255-bit prime field whose elements are kept in Montgomery
//! form in four 64-bit limbs. [`Fp`] and [`Fq`] are distinct types with the
//! same operations; nothing takes one of each.
//!
//! - [`limbs`]: carry chains, wide products and branch-free selection on
//!   four-limb integers.
//! - [`montgomery`]: addition, subtraction and Montgomery multiplication for
//!   any odd modulus below `2^256`.
//! - [`algebra`]: what those operations mean for the integers that the
//!   Montgomery forms stand for, and the field laws.
//! - [`pallas`], [`vesta`]: the two fields, their constants and their laws.

pub mod algebra;
pub mod limbs;
pub mod montgomery;
pub mod pallas;
pub mod vesta;

pub use pallas::{pasta_fp, Fp, FP_MODULUS, FP_R};
pub use vesta::{pasta_fq, Fq, FQ_MODULUS, FQ_R};
