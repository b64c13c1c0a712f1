//! The MiMC permutation `LongsightF322p3` over the scalar field of BLS12-381, and the
//! rank-1 constraint system that proves knowledge of one of its preimages.
//!
//! - [`field`]: field elements and their arithmetic.
//! - [`permutation`]: the permutation and what it computes.
//! - [`system`]: constraint systems, linear combinations and when they are satisfied.
//! - [`circuit`]: the synthesis of the permutation into a constraint system, and what holds
//!   of the system it gives.
//! - [`demo`]: round constants from a fixed generator and a synthesis without a witness.

pub mod circuit;
pub mod demo;
pub mod field;
pub mod permutation;
pub mod system;

pub use crate::circuit::MiMCDemo;
pub use crate::demo::run_mimc;
pub use crate::field::FieldElement;
pub use crate::permutation::{mimc, MIMC_ROUNDS};
pub use crate::system::{
    Constraint, ConstraintSystem, LinearCombination, SynthesisError, Variable,
};
