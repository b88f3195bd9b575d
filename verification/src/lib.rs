//! Forward-mode automatic differentiation on named variables.
//!
//! The crate provides dual numbers that carry first-order (`Dual`) and
//! second-order (`Dual2`) partial derivatives alongside a scalar value.
//! Every derivative vector and Hessian matrix is indexed by an ordered,
//! duplicate-free registry of variable names, and arithmetic between two
//! dual numbers first reconciles their registries onto a common one.
//!
//! Scalars are held in fixed-point form (`Fixed`, twelve fractional decimal
//! digits) so that every arithmetic step has an exact integer specification.

use vstd::prelude::*;

pub mod fixed;
pub mod vars;
pub mod dual;
pub mod dual2;
pub mod numeric;
pub mod laws;
pub mod calendar;
pub mod curves;

verus! {

/// The failure conditions surfaced by this crate.
///
/// `InvalidLength` is raised at construction time when a supplied gradient or
/// Hessian does not match the deduplicated variable count. `TypeMismatch` is
/// raised when arithmetic is attempted between incompatible tagged-union
/// variants (a first-order dual mixed with a second-order dual).
#[derive(Clone, Copy, Debug, PartialEq, Eq, Structural)]
pub enum DualError {
    InvalidLength,
    TypeMismatch,
}

} // verus!
