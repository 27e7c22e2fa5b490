//! Algebraic capability traits and the concrete operations used by the
//! aggregation containers.
//!
//! A capability trait couples an executable operation with a specification
//! function and with proof obligations (associativity, identity laws, ...)
//! that every implementation must discharge.  Containers such as the Fenwick
//! trees are verified once, generically, against these laws.
//!
//! The concrete integer operations use wrapping arithmetic so that the
//! combinator is total: `(Z/2^w, +)` is an abelian group for every width `w`,
//! and callers that stay within the native range observe ordinary addition.

use vstd::prelude::*;

verus! {

/// A set with a binary operation.
pub trait Magma: Sized {
    /// The value type folded by the operation.
    type T;

    /// The operation, as a mathematical function.
    spec fn op(x: Self::T, y: Self::T) -> Self::T;

    /// Executable form of the operation.
    fn operate(x: &Self::T, y: &Self::T) -> (r: Self::T)
        ensures
            r == Self::op(*x, *y),
    ;
}

/// A magma whose operation is associative.
pub trait Associative: Magma {
    /// `(x op y) op z == x op (y op z)`.
    proof fn op_associative(x: Self::T, y: Self::T, z: Self::T)
        ensures
            Self::op(Self::op(x, y), z) == Self::op(x, Self::op(y, z)),
    ;
}

/// A magma whose operation is commutative.
pub trait Commutative: Magma {
    /// `x op y == y op x`.
    proof fn op_commutative(x: Self::T, y: Self::T)
        ensures
            Self::op(x, y) == Self::op(y, x),
    ;
}

/// A magma with a two-sided identity element.
pub trait Unital: Magma {
    /// The identity element, as a mathematical value.
    spec fn unit_spec() -> Self::T;

    /// Executable form of the identity element.
    fn unit() -> (r: Self::T)
        ensures
            r == Self::unit_spec(),
    ;

    /// `unit op x == x`.
    proof fn unit_left(x: Self::T)
        ensures
            Self::op(Self::unit_spec(), x) == x,
    ;

    /// `x op unit == x`.
    proof fn unit_right(x: Self::T)
        ensures
            Self::op(x, Self::unit_spec()) == x,
    ;
}

/// A unital magma in which every element has a two-sided inverse.
pub trait Invertible: Unital {
    /// The inverse, as a mathematical function.
    spec fn inv_spec(x: Self::T) -> Self::T;

    /// Executable form of the inverse.
    fn inverse(x: &Self::T) -> (r: Self::T)
        ensures
            r == Self::inv_spec(*x),
    ;

    /// Combines with the inverse of the right operand.
    fn rinv_operate(x: &Self::T, y: &Self::T) -> (r: Self::T)
        ensures
            r == Self::op(*x, Self::inv_spec(*y)),
    {
        let yi = Self::inverse(y);
        Self::operate(x, &yi)
    }

    /// `inverse(x) op x == unit`.
    proof fn inverse_left(x: Self::T)
        ensures
            Self::op(Self::inv_spec(x), x) == Self::unit_spec(),
    ;

    /// `x op inverse(x) == unit`.
    proof fn inverse_right(x: Self::T)
        ensures
            Self::op(x, Self::inv_spec(x)) == Self::unit_spec(),
    ;
}

/// Associative operation with identity.
pub trait Monoid: Unital + Associative {
}

impl<M: Unital + Associative> Monoid for M {
}

/// Commutative monoid.
pub trait AbelianMonoid: Monoid + Commutative {
}

impl<M: Monoid + Commutative> AbelianMonoid for M {
}

/// Monoid in which every element is invertible.
pub trait Group: Monoid + Invertible {
}

impl<M: Monoid + Invertible> Group for M {
}

/// Commutative group.
pub trait AbelianGroup: Group + Commutative {
}

impl<M: Group + Commutative> AbelianGroup for M {
}

/// Addition as the operation: `(T, +)`, wrapping on overflow.
pub struct AdditiveOperation<T> {
    _marker: core::marker::PhantomData<T>,
}

impl<T> AdditiveOperation<T> {
    /// Creates the operation object.
    pub fn new() -> (r: Self) {
        AdditiveOperation { _marker: core::marker::PhantomData }
    }
}

impl Magma for AdditiveOperation<u64> {
    type T = u64;

    open spec fn op(x: u64, y: u64) -> u64 {
        vstd::wrapping::u64_specs::wrapping_add(x, y)
    }

    fn operate(x: &u64, y: &u64) -> (r: u64) {
        x.wrapping_add(*y)
    }
}

impl Associative for AdditiveOperation<u64> {
    proof fn op_associative(x: u64, y: u64, z: u64) {
    }
}

impl Commutative for AdditiveOperation<u64> {
    proof fn op_commutative(x: u64, y: u64) {
    }
}

impl Unital for AdditiveOperation<u64> {
    open spec fn unit_spec() -> u64 {
        0u64
    }

    fn unit() -> (r: u64) {
        0u64
    }

    proof fn unit_left(x: u64) {
    }

    proof fn unit_right(x: u64) {
    }
}

impl Invertible for AdditiveOperation<u64> {
    open spec fn inv_spec(x: u64) -> u64 {
        vstd::wrapping::u64_specs::wrapping_sub(0u64, x)
    }

    fn inverse(x: &u64) -> (r: u64) {
        0u64.wrapping_sub(*x)
    }

    proof fn inverse_left(x: u64) {
    }

    proof fn inverse_right(x: u64) {
    }
}

impl Magma for AdditiveOperation<i64> {
    type T = i64;

    open spec fn op(x: i64, y: i64) -> i64 {
        vstd::wrapping::i64_specs::wrapping_add(x, y)
    }

    fn operate(x: &i64, y: &i64) -> (r: i64) {
        x.wrapping_add(*y)
    }
}

impl Associative for AdditiveOperation<i64> {
    proof fn op_associative(x: i64, y: i64, z: i64) {
    }
}

impl Commutative for AdditiveOperation<i64> {
    proof fn op_commutative(x: i64, y: i64) {
    }
}

impl Unital for AdditiveOperation<i64> {
    open spec fn unit_spec() -> i64 {
        0i64
    }

    fn unit() -> (r: i64) {
        0i64
    }

    proof fn unit_left(x: i64) {
    }

    proof fn unit_right(x: i64) {
    }
}

impl Invertible for AdditiveOperation<i64> {
    open spec fn inv_spec(x: i64) -> i64 {
        vstd::wrapping::i64_specs::wrapping_sub(0i64, x)
    }

    fn inverse(x: &i64) -> (r: i64) {
        0i64.wrapping_sub(*x)
    }

    proof fn inverse_left(x: i64) {
    }

    proof fn inverse_right(x: i64) {
    }
}

impl Magma for AdditiveOperation<usize> {
    type T = usize;

    open spec fn op(x: usize, y: usize) -> usize {
        vstd::wrapping::usize_specs::wrapping_add(x, y)
    }

    fn operate(x: &usize, y: &usize) -> (r: usize) {
        x.wrapping_add(*y)
    }
}

impl Associative for AdditiveOperation<usize> {
    proof fn op_associative(x: usize, y: usize, z: usize) {
    }
}

impl Commutative for AdditiveOperation<usize> {
    proof fn op_commutative(x: usize, y: usize) {
    }
}

impl Unital for AdditiveOperation<usize> {
    open spec fn unit_spec() -> usize {
        0usize
    }

    fn unit() -> (r: usize) {
        0usize
    }

    proof fn unit_left(x: usize) {
    }

    proof fn unit_right(x: usize) {
    }
}

impl Invertible for AdditiveOperation<usize> {
    open spec fn inv_spec(x: usize) -> usize {
        vstd::wrapping::usize_specs::wrapping_sub(0usize, x)
    }

    fn inverse(x: &usize) -> (r: usize) {
        0usize.wrapping_sub(*x)
    }

    proof fn inverse_left(x: usize) {
    }

    proof fn inverse_right(x: usize) {
    }
}

/// Maximum as the operation, with the type's minimum value as identity.
pub struct MaxOperation<T> {
    _marker: core::marker::PhantomData<T>,
}

impl<T> MaxOperation<T> {
    /// Creates the operation object.
    pub fn new() -> (r: Self) {
        MaxOperation { _marker: core::marker::PhantomData }
    }
}

impl Magma for MaxOperation<u64> {
    type T = u64;

    open spec fn op(x: u64, y: u64) -> u64 {
        if x >= y {
            x
        } else {
            y
        }
    }

    fn operate(x: &u64, y: &u64) -> (r: u64) {
        if *x >= *y {
            *x
        } else {
            *y
        }
    }
}

impl Associative for MaxOperation<u64> {
    proof fn op_associative(x: u64, y: u64, z: u64) {
    }
}

impl Commutative for MaxOperation<u64> {
    proof fn op_commutative(x: u64, y: u64) {
    }
}

impl Unital for MaxOperation<u64> {
    open spec fn unit_spec() -> u64 {
        0u64
    }

    fn unit() -> (r: u64) {
        0u64
    }

    proof fn unit_left(x: u64) {
    }

    proof fn unit_right(x: u64) {
    }
}

impl Magma for MaxOperation<usize> {
    type T = usize;

    open spec fn op(x: usize, y: usize) -> usize {
        if x >= y {
            x
        } else {
            y
        }
    }

    fn operate(x: &usize, y: &usize) -> (r: usize) {
        if *x >= *y {
            *x
        } else {
            *y
        }
    }
}

impl Associative for MaxOperation<usize> {
    proof fn op_associative(x: usize, y: usize, z: usize) {
    }
}

impl Commutative for MaxOperation<usize> {
    proof fn op_commutative(x: usize, y: usize) {
    }
}

impl Unital for MaxOperation<usize> {
    open spec fn unit_spec() -> usize {
        0usize
    }

    fn unit() -> (r: usize) {
        0usize
    }

    proof fn unit_left(x: usize) {
    }

    proof fn unit_right(x: usize) {
    }
}

impl Magma for MaxOperation<i64> {
    type T = i64;

    open spec fn op(x: i64, y: i64) -> i64 {
        if x >= y {
            x
        } else {
            y
        }
    }

    fn operate(x: &i64, y: &i64) -> (r: i64) {
        if *x >= *y {
            *x
        } else {
            *y
        }
    }
}

impl Associative for MaxOperation<i64> {
    proof fn op_associative(x: i64, y: i64, z: i64) {
    }
}

impl Commutative for MaxOperation<i64> {
    proof fn op_commutative(x: i64, y: i64) {
    }
}

impl Unital for MaxOperation<i64> {
    open spec fn unit_spec() -> i64 {
        i64::MIN
    }

    fn unit() -> (r: i64) {
        i64::MIN
    }

    proof fn unit_left(x: i64) {
    }

    proof fn unit_right(x: i64) {
    }
}

/// Multiplication as the operation: `(T, *)`, wrapping on overflow.
pub struct MultiplicativeOperation<T> {
    _marker: core::marker::PhantomData<T>,
}

impl<T> MultiplicativeOperation<T> {
    /// Creates the operation object.
    pub fn new() -> (r: Self) {
        MultiplicativeOperation { _marker: core::marker::PhantomData }
    }
}

impl Magma for MultiplicativeOperation<u64> {
    type T = u64;

    open spec fn op(x: u64, y: u64) -> u64 {
        vstd::wrapping::u64_specs::wrapping_mul(x, y)
    }

    fn operate(x: &u64, y: &u64) -> (r: u64) {
        x.wrapping_mul(*y)
    }
}

impl Associative for MultiplicativeOperation<u64> {
    proof fn op_associative(x: u64, y: u64, z: u64) {
        let m = 0x1_0000_0000_0000_0000int;
        vstd::arithmetic::div_mod::lemma_mul_mod_noop_left(x * y, z as int, m);
        vstd::arithmetic::div_mod::lemma_mul_mod_noop_right(x as int, y * z, m);
        vstd::arithmetic::mul::lemma_mul_is_associative(x as int, y as int, z as int);
    }
}

impl Commutative for MultiplicativeOperation<u64> {
    proof fn op_commutative(x: u64, y: u64) {
        vstd::arithmetic::mul::lemma_mul_is_commutative(x as int, y as int);
    }
}

impl Unital for MultiplicativeOperation<u64> {
    open spec fn unit_spec() -> u64 {
        1u64
    }

    fn unit() -> (r: u64) {
        1u64
    }

    proof fn unit_left(x: u64) {
        vstd::arithmetic::div_mod::lemma_small_mod(x as nat, 0x1_0000_0000_0000_0000nat);
    }

    proof fn unit_right(x: u64) {
        vstd::arithmetic::div_mod::lemma_small_mod(x as nat, 0x1_0000_0000_0000_0000nat);
    }
}

} // verus!
