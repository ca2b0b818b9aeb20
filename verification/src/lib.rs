//! Linear combinations over the variables of a rank-1 constraint system,
//! with coefficients in the scalar field of the Ristretto group.
//!
//! A constraint of such a system says that a linear combination of circuit
//! variables is zero. This crate holds the variables and their order, the
//! scalars, the arithmetic that builds linear combinations, the merge that
//! brings one into its canonical form, and the laws of that algebra.

pub mod arithmetic;
pub mod evaluation;
pub mod laws;
pub mod linear_combination;
pub mod scalar;
pub mod variable;

pub use crate::linear_combination::LinearCombination;
pub use crate::scalar::Scalar;
pub use crate::variable::Variable;
