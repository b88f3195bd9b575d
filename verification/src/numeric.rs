//! The tagged numeric union: a value that is exactly one of a plain scalar,
//! a first-order dual, or a second-order dual.
//!
//! Generic numeric code stores these where the differentiation order is not
//! fixed in advance. A plain scalar combines with either dual variant
//! unconditionally; combining the two dual variants with each other is a
//! caller error and fails fast with `TypeMismatch`, so that second-order
//! information is never silently dropped nor a Hessian silently fabricated.

use crate::dual::{
    add_model, add_scalar_model, eq_model, mul_model, mul_scalar_model, pow_model,
    scalar_sub_model, sub_model, sub_scalar_model, Dual, DualSpec,
};
use crate::dual2::{
    add2_model, add2_scalar_model, eq2_model, mul2_model, mul2_scalar_model, pow2_model,
    scalar_sub2_model, sub2_model, sub2_scalar_model, Dual2, Dual2Spec,
};
use crate::fixed::{add_v, div_v, mul_v, sub_v, Fixed};
use crate::DualError;
use vstd::prelude::*;

verus! {

/// A number that may carry first- or second-order sensitivities.
#[derive(Debug)]
pub enum Numeric {
    Scalar(Fixed),
    Dual(Dual),
    Dual2(Dual2),
}

impl Numeric {
    /// Add two union values. A scalar combines with anything; mixing the two
    /// dual variants fails with `TypeMismatch`, and nothing else fails.
    pub fn add(&self, other: &Numeric) -> (r: Result<Numeric, DualError>)
        ensures
            match (self, other) {
                (Numeric::Scalar(x), Numeric::Scalar(y)) => r matches Ok(Numeric::Scalar(v))
                    && v@ == add_v(x@, y@),
                (Numeric::Scalar(x), Numeric::Dual(d)) => r matches Ok(Numeric::Dual(v)) && v@
                    == add_scalar_model(d@, x@),
                (Numeric::Dual(d), Numeric::Scalar(x)) => r matches Ok(Numeric::Dual(v)) && v@
                    == add_scalar_model(d@, x@),
                (Numeric::Dual(a), Numeric::Dual(b)) => r matches Ok(Numeric::Dual(v)) && v@
                    == add_model(a@, b@),
                (Numeric::Scalar(x), Numeric::Dual2(d)) => r matches Ok(Numeric::Dual2(v)) && v@
                    == add2_scalar_model(d@, x@),
                (Numeric::Dual2(d), Numeric::Scalar(x)) => r matches Ok(Numeric::Dual2(v)) && v@
                    == add2_scalar_model(d@, x@),
                (Numeric::Dual2(a), Numeric::Dual2(b)) => r matches Ok(Numeric::Dual2(v)) && v@
                    == add2_model(a@, b@),
                (Numeric::Dual(_), Numeric::Dual2(_)) => r matches Err(e) && e
                    == DualError::TypeMismatch,
                (Numeric::Dual2(_), Numeric::Dual(_)) => r matches Err(e) && e
                    == DualError::TypeMismatch,
            },
    {
        match (self, other) {
            (Numeric::Scalar(x), Numeric::Scalar(y)) => Ok(Numeric::Scalar(x.add(*y))),
            (Numeric::Scalar(x), Numeric::Dual(d)) => Ok(Numeric::Dual(d.add_scalar(*x))),
            (Numeric::Dual(d), Numeric::Scalar(x)) => Ok(Numeric::Dual(d.add_scalar(*x))),
            (Numeric::Dual(a), Numeric::Dual(b)) => Ok(Numeric::Dual(a.add(b))),
            (Numeric::Scalar(x), Numeric::Dual2(d)) => Ok(Numeric::Dual2(d.add_scalar(*x))),
            (Numeric::Dual2(d), Numeric::Scalar(x)) => Ok(Numeric::Dual2(d.add_scalar(*x))),
            (Numeric::Dual2(a), Numeric::Dual2(b)) => Ok(Numeric::Dual2(a.add(b))),
            (Numeric::Dual(_), Numeric::Dual2(_)) => Err(DualError::TypeMismatch),
            (Numeric::Dual2(_), Numeric::Dual(_)) => Err(DualError::TypeMismatch),
        }
    }

    /// Subtract two union values, with the same mixing rule as addition.
    pub fn sub(&self, other: &Numeric) -> (r: Result<Numeric, DualError>)
        ensures
            match (self, other) {
                (Numeric::Scalar(x), Numeric::Scalar(y)) => r matches Ok(Numeric::Scalar(v))
                    && v@ == sub_v(x@, y@),
                (Numeric::Scalar(x), Numeric::Dual(d)) => r matches Ok(Numeric::Dual(v)) && v@
                    == scalar_sub_model(x@, d@),
                (Numeric::Dual(d), Numeric::Scalar(x)) => r matches Ok(Numeric::Dual(v)) && v@
                    == sub_scalar_model(d@, x@),
                (Numeric::Dual(a), Numeric::Dual(b)) => r matches Ok(Numeric::Dual(v)) && v@
                    == sub_model(a@, b@),
                (Numeric::Scalar(x), Numeric::Dual2(d)) => r matches Ok(Numeric::Dual2(v)) && v@
                    == scalar_sub2_model(x@, d@),
                (Numeric::Dual2(d), Numeric::Scalar(x)) => r matches Ok(Numeric::Dual2(v)) && v@
                    == sub2_scalar_model(d@, x@),
                (Numeric::Dual2(a), Numeric::Dual2(b)) => r matches Ok(Numeric::Dual2(v)) && v@
                    == sub2_model(a@, b@),
                (Numeric::Dual(_), Numeric::Dual2(_)) => r matches Err(e) && e
                    == DualError::TypeMismatch,
                (Numeric::Dual2(_), Numeric::Dual(_)) => r matches Err(e) && e
                    == DualError::TypeMismatch,
            },
    {
        match (self, other) {
            (Numeric::Scalar(x), Numeric::Scalar(y)) => Ok(Numeric::Scalar(x.sub(*y))),
            (Numeric::Scalar(x), Numeric::Dual(d)) => Ok(Numeric::Dual(d.scalar_sub(*x))),
            (Numeric::Dual(d), Numeric::Scalar(x)) => Ok(Numeric::Dual(d.sub_scalar(*x))),
            (Numeric::Dual(a), Numeric::Dual(b)) => Ok(Numeric::Dual(a.sub(b))),
            (Numeric::Scalar(x), Numeric::Dual2(d)) => Ok(Numeric::Dual2(d.scalar_sub(*x))),
            (Numeric::Dual2(d), Numeric::Scalar(x)) => Ok(Numeric::Dual2(d.sub_scalar(*x))),
            (Numeric::Dual2(a), Numeric::Dual2(b)) => Ok(Numeric::Dual2(a.sub(b))),
            (Numeric::Dual(_), Numeric::Dual2(_)) => Err(DualError::TypeMismatch),
            (Numeric::Dual2(_), Numeric::Dual(_)) => Err(DualError::TypeMismatch),
        }
    }

    /// Multiply two union values, with the same mixing rule as addition.
    pub fn mul(&self, other: &Numeric) -> (r: Result<Numeric, DualError>)
        ensures
            match (self, other) {
                (Numeric::Scalar(x), Numeric::Scalar(y)) => r matches Ok(Numeric::Scalar(v))
                    && v@ == mul_v(x@, y@),
                (Numeric::Scalar(x), Numeric::Dual(d)) => r matches Ok(Numeric::Dual(v)) && v@
                    == mul_scalar_model(d@, x@),
                (Numeric::Dual(d), Numeric::Scalar(x)) => r matches Ok(Numeric::Dual(v)) && v@
                    == mul_scalar_model(d@, x@),
                (Numeric::Dual(a), Numeric::Dual(b)) => r matches Ok(Numeric::Dual(v)) && v@
                    == mul_model(a@, b@),
                (Numeric::Scalar(x), Numeric::Dual2(d)) => r matches Ok(Numeric::Dual2(v)) && v@
                    == mul2_scalar_model(d@, x@),
                (Numeric::Dual2(d), Numeric::Scalar(x)) => r matches Ok(Numeric::Dual2(v)) && v@
                    == mul2_scalar_model(d@, x@),
                (Numeric::Dual2(a), Numeric::Dual2(b)) => r matches Ok(Numeric::Dual2(v)) && v@
                    == mul2_model(a@, b@),
                (Numeric::Dual(_), Numeric::Dual2(_)) => r matches Err(e) && e
                    == DualError::TypeMismatch,
                (Numeric::Dual2(_), Numeric::Dual(_)) => r matches Err(e) && e
                    == DualError::TypeMismatch,
            },
    {
        match (self, other) {
            (Numeric::Scalar(x), Numeric::Scalar(y)) => Ok(Numeric::Scalar(x.mul(*y))),
            (Numeric::Scalar(x), Numeric::Dual(d)) => Ok(Numeric::Dual(d.mul_scalar(*x))),
            (Numeric::Dual(d), Numeric::Scalar(x)) => Ok(Numeric::Dual(d.mul_scalar(*x))),
            (Numeric::Dual(a), Numeric::Dual(b)) => Ok(Numeric::Dual(a.mul(b))),
            (Numeric::Scalar(x), Numeric::Dual2(d)) => Ok(Numeric::Dual2(d.mul_scalar(*x))),
            (Numeric::Dual2(d), Numeric::Scalar(x)) => Ok(Numeric::Dual2(d.mul_scalar(*x))),
            (Numeric::Dual2(a), Numeric::Dual2(b)) => Ok(Numeric::Dual2(a.mul(b))),
            (Numeric::Dual(_), Numeric::Dual2(_)) => Err(DualError::TypeMismatch),
            (Numeric::Dual2(_), Numeric::Dual(_)) => Err(DualError::TypeMismatch),
        }
    }

    /// Divide two union values, with the same mixing rule as addition.
    pub fn div(&self, other: &Numeric) -> (r: Result<Numeric, DualError>)
        ensures
            match (self, other) {
                (Numeric::Scalar(x), Numeric::Scalar(y)) => r matches Ok(Numeric::Scalar(v))
                    && v@ == div_v(x@, y@),
                (Numeric::Scalar(x), Numeric::Dual(d)) => r matches Ok(Numeric::Dual(v)) && v@
                    == mul_scalar_model(pow_model(d@, -1), x@),
                (Numeric::Dual(d), Numeric::Scalar(x)) => r matches Ok(Numeric::Dual(v)) && v@
                    == crate::dual::div_scalar_model(d@, x@),
                (Numeric::Dual(a), Numeric::Dual(b)) => r matches Ok(Numeric::Dual(v)) && v@
                    == mul_model(a@, pow_model(b@, -1)),
                (Numeric::Scalar(x), Numeric::Dual2(d)) => r matches Ok(Numeric::Dual2(v)) && v@
                    == mul2_scalar_model(pow2_model(d@, -1), x@),
                (Numeric::Dual2(d), Numeric::Scalar(x)) => r matches Ok(Numeric::Dual2(v)) && v@
                    == crate::dual2::div2_scalar_model(d@, x@),
                (Numeric::Dual2(a), Numeric::Dual2(b)) => r matches Ok(Numeric::Dual2(v)) && v@
                    == mul2_model(a@, pow2_model(b@, -1)),
                (Numeric::Dual(_), Numeric::Dual2(_)) => r matches Err(e) && e
                    == DualError::TypeMismatch,
                (Numeric::Dual2(_), Numeric::Dual(_)) => r matches Err(e) && e
                    == DualError::TypeMismatch,
            },
    {
        match (self, other) {
            (Numeric::Scalar(x), Numeric::Scalar(y)) => Ok(Numeric::Scalar(x.div(*y))),
            (Numeric::Scalar(x), Numeric::Dual(d)) => Ok(Numeric::Dual(d.scalar_div(*x))),
            (Numeric::Dual(d), Numeric::Scalar(x)) => Ok(Numeric::Dual(d.div_scalar(*x))),
            (Numeric::Dual(a), Numeric::Dual(b)) => Ok(Numeric::Dual(a.div(b))),
            (Numeric::Scalar(x), Numeric::Dual2(d)) => Ok(Numeric::Dual2(d.scalar_div(*x))),
            (Numeric::Dual2(d), Numeric::Scalar(x)) => Ok(Numeric::Dual2(d.div_scalar(*x))),
            (Numeric::Dual2(a), Numeric::Dual2(b)) => Ok(Numeric::Dual2(a.div(b))),
            (Numeric::Dual(_), Numeric::Dual2(_)) => Err(DualError::TypeMismatch),
            (Numeric::Dual2(_), Numeric::Dual(_)) => Err(DualError::TypeMismatch),
        }
    }

    /// Tolerant equality of two union values. A plain scalar compares with
    /// either dual variant by lifting it to that variant's order; comparing
    /// the two dual variants with each other fails with `TypeMismatch`.
    pub fn eq_check(&self, other: &Numeric) -> (r: Result<bool, DualError>)
        ensures
            match (self, other) {
                (Numeric::Scalar(x), Numeric::Scalar(y)) => r matches Ok(v) && v == (x@ == y@),
                (Numeric::Scalar(x), Numeric::Dual(d)) => r matches Ok(v) && v == eq_model(
                    DualSpec { real: x@, vars: Seq::empty(), grad: Seq::empty() },
                    d@,
                ),
                (Numeric::Dual(d), Numeric::Scalar(x)) => r matches Ok(v) && v == eq_model(
                    d@,
                    DualSpec { real: x@, vars: Seq::empty(), grad: Seq::empty() },
                ),
                (Numeric::Dual(a), Numeric::Dual(b)) => r matches Ok(v) && v == eq_model(a@, b@),
                (Numeric::Scalar(x), Numeric::Dual2(d)) => r matches Ok(v) && v == eq2_model(
                    Dual2Spec {
                        real: x@,
                        vars: Seq::empty(),
                        grad: Seq::empty(),
                        hess: Seq::empty(),
                    },
                    d@,
                ),
                (Numeric::Dual2(d), Numeric::Scalar(x)) => r matches Ok(v) && v == eq2_model(
                    d@,
                    Dual2Spec {
                        real: x@,
                        vars: Seq::empty(),
                        grad: Seq::empty(),
                        hess: Seq::empty(),
                    },
                ),
                (Numeric::Dual2(a), Numeric::Dual2(b)) => r matches Ok(v) && v == eq2_model(
                    a@,
                    b@,
                ),
                (Numeric::Dual(_), Numeric::Dual2(_)) => r matches Err(e) && e
                    == DualError::TypeMismatch,
                (Numeric::Dual2(_), Numeric::Dual(_)) => r matches Err(e) && e
                    == DualError::TypeMismatch,
            },
    {
        match (self, other) {
            (Numeric::Scalar(x), Numeric::Scalar(y)) => Ok(x.eq_exact(*y)),
            (Numeric::Scalar(x), Numeric::Dual(d)) => Ok(Dual::from_scalar(*x) == *d),
            (Numeric::Dual(d), Numeric::Scalar(x)) => Ok(*d == Dual::from_scalar(*x)),
            (Numeric::Dual(a), Numeric::Dual(b)) => Ok(a == b),
            (Numeric::Scalar(x), Numeric::Dual2(d)) => Ok(Dual2::from_scalar(*x) == *d),
            (Numeric::Dual2(d), Numeric::Scalar(x)) => Ok(*d == Dual2::from_scalar(*x)),
            (Numeric::Dual2(a), Numeric::Dual2(b)) => Ok(a == b),
            (Numeric::Dual(_), Numeric::Dual2(_)) => Err(DualError::TypeMismatch),
            (Numeric::Dual2(_), Numeric::Dual(_)) => Err(DualError::TypeMismatch),
        }
    }

    /// Order two union values by their real parts. A plain scalar compares
    /// with either dual variant; comparing the two dual variants with each
    /// other fails with `TypeMismatch`.
    pub fn lt_check(&self, other: &Numeric) -> (r: Result<bool, DualError>)
        ensures
            match (self, other) {
                (Numeric::Scalar(x), Numeric::Scalar(y)) => r matches Ok(v) && v == (x@ < y@),
                (Numeric::Scalar(x), Numeric::Dual(d)) => r matches Ok(v) && v == (x@ < d@.real),
                (Numeric::Dual(d), Numeric::Scalar(x)) => r matches Ok(v) && v == (d@.real < x@),
                (Numeric::Dual(a), Numeric::Dual(b)) => r matches Ok(v) && v == (a@.real
                    < b@.real),
                (Numeric::Scalar(x), Numeric::Dual2(d)) => r matches Ok(v) && v == (x@ < d@.real),
                (Numeric::Dual2(d), Numeric::Scalar(x)) => r matches Ok(v) && v == (d@.real < x@),
                (Numeric::Dual2(a), Numeric::Dual2(b)) => r matches Ok(v) && v == (a@.real
                    < b@.real),
                (Numeric::Dual(_), Numeric::Dual2(_)) => r matches Err(e) && e
                    == DualError::TypeMismatch,
                (Numeric::Dual2(_), Numeric::Dual(_)) => r matches Err(e) && e
                    == DualError::TypeMismatch,
            },
    {
        match (self, other) {
            (Numeric::Scalar(x), Numeric::Scalar(y)) => Ok(x.lt(*y)),
            (Numeric::Scalar(x), Numeric::Dual(d)) => Ok(x.lt(d.real_part())),
            (Numeric::Dual(d), Numeric::Scalar(x)) => Ok(d.real_part().lt(*x)),
            (Numeric::Dual(a), Numeric::Dual(b)) => Ok(a.real_part().lt(b.real_part())),
            (Numeric::Scalar(x), Numeric::Dual2(d)) => Ok(x.lt(d.real_part())),
            (Numeric::Dual2(d), Numeric::Scalar(x)) => Ok(d.real_part().lt(*x)),
            (Numeric::Dual2(a), Numeric::Dual2(b)) => Ok(a.real_part().lt(b.real_part())),
            (Numeric::Dual(_), Numeric::Dual2(_)) => Err(DualError::TypeMismatch),
            (Numeric::Dual2(_), Numeric::Dual(_)) => Err(DualError::TypeMismatch),
        }
    }

    /// The real part of any variant.
    pub fn real_part(&self) -> (r: Fixed)
        ensures
            match self {
                Numeric::Scalar(x) => r@ == x@,
                Numeric::Dual(d) => r@ == d@.real,
                Numeric::Dual2(d) => r@ == d@.real,
            },
    {
        match self {
            Numeric::Scalar(x) => *x,
            Numeric::Dual(d) => d.real_part(),
            Numeric::Dual2(d) => d.real_part(),
        }
    }
}

} // verus!
