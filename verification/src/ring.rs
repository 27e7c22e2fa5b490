//! Ring-style capability sets: a semiring composes an additive commutative
//! monoid with a multiplicative monoid over one value type; a ring adds
//! additive inverses and a field multiplicative inverses.
//!
//! These compose the same capability traits the aggregation containers use,
//! but are not required by them; the cross-distribution laws relating the
//! two operations are the caller's contract and are not encoded here.

use crate::algebra::{AbelianMonoid, AdditiveOperation, Invertible, Magma, Monoid, MultiplicativeOperation, Unital};
use vstd::prelude::*;

verus! {

/// Additive commutative monoid plus multiplicative monoid over one type.
pub trait SemiRing {
    /// The value type shared by both operations.
    type T;

    /// The additive structure.
    type Additive: AbelianMonoid<T = Self::T>;

    /// The multiplicative structure.
    type Multiplicative: Monoid<T = Self::T>;

    /// Additive identity: `0`.
    fn zero() -> (r: Self::T)
        ensures
            r == <Self::Additive as Unital>::unit_spec(),
    {
        <Self::Additive as Unital>::unit()
    }

    /// Multiplicative identity: `1`.
    fn one() -> (r: Self::T)
        ensures
            r == <Self::Multiplicative as Unital>::unit_spec(),
    {
        <Self::Multiplicative as Unital>::unit()
    }

    /// Additive operation: `+`.
    fn add(x: &Self::T, y: &Self::T) -> (r: Self::T)
        ensures
            r == <Self::Additive as Magma>::op(*x, *y),
    {
        <Self::Additive as Magma>::operate(x, y)
    }

    /// Multiplicative operation: `*`.
    fn mul(x: &Self::T, y: &Self::T) -> (r: Self::T)
        ensures
            r == <Self::Multiplicative as Magma>::op(*x, *y),
    {
        <Self::Multiplicative as Magma>::operate(x, y)
    }
}

/// Semiring whose additive structure is a group.
pub trait Ring: SemiRing where Self::Additive: Invertible {
    /// Additive inverse: unary `-`.
    fn neg(x: &Self::T) -> (r: Self::T)
        ensures
            r == <Self::Additive as Invertible>::inv_spec(*x),
    {
        <Self::Additive as Invertible>::inverse(x)
    }

    /// Additive operation with the right operand inverted: binary `-`.
    fn sub(x: &Self::T, y: &Self::T) -> (r: Self::T)
        ensures
            r == <Self::Additive as Magma>::op(
                *x,
                <Self::Additive as Invertible>::inv_spec(*y),
            ),
    {
        let ny = Self::neg(y);
        Self::add(x, &ny)
    }
}

impl<R> Ring for R where R: SemiRing, R::Additive: Invertible {
}

/// Ring whose multiplicative structure is also a group.
pub trait Field: Ring where Self::Additive: Invertible, Self::Multiplicative: Invertible {
    /// Multiplicative inverse.
    fn inv(x: &Self::T) -> (r: Self::T)
        ensures
            r == <Self::Multiplicative as Invertible>::inv_spec(*x),
    {
        <Self::Multiplicative as Invertible>::inverse(x)
    }

    /// Multiplicative operation with the right operand inverted: `/`.
    fn div(x: &Self::T, y: &Self::T) -> (r: Self::T)
        ensures
            r == <Self::Multiplicative as Magma>::op(
                *x,
                <Self::Multiplicative as Invertible>::inv_spec(*y),
            ),
    {
        let ny = Self::inv(y);
        Self::mul(x, &ny)
    }
}

impl<F> Field for F where
    F: Ring,
    F::Additive: Invertible,
    F::Multiplicative: Invertible,
{
}

/// `+, *`: the semiring of wrapping addition and multiplication.
pub struct AddMulOperation<T> {
    _marker: core::marker::PhantomData<T>,
}

impl<T> AddMulOperation<T> {
    /// Creates the operation object.
    pub fn new() -> (r: Self) {
        AddMulOperation { _marker: core::marker::PhantomData }
    }
}

impl SemiRing for AddMulOperation<u64> {
    type T = u64;

    type Additive = AdditiveOperation<u64>;

    type Multiplicative = MultiplicativeOperation<u64>;
}

} // verus!
