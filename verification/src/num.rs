//! Numeric helper traits and a complex-number pair type.
//!
//! The arithmetic methods of [`Complex`] are provided for `i64` components
//! with wrapping semantics, so that they are total; callers that stay within
//! the native range observe ordinary integer arithmetic.

use vstd::prelude::*;

verus! {

/// A type with a distinguished zero value.
pub trait Zero: Sized {
    /// The zero value, as a mathematical constant.
    spec fn zero_spec() -> Self;

    /// Executable form of the zero value.
    fn zero() -> (r: Self)
        ensures
            r == Self::zero_spec(),
    ;
}

/// A type with a distinguished one value.
pub trait One: Sized {
    /// The one value, as a mathematical constant.
    spec fn one_spec() -> Self;

    /// Executable form of the one value.
    fn one() -> (r: Self)
        ensures
            r == Self::one_spec(),
    ;
}

impl Zero for u64 {
    open spec fn zero_spec() -> u64 {
        0u64
    }

    fn zero() -> (r: u64) {
        0u64
    }
}

impl One for u64 {
    open spec fn one_spec() -> u64 {
        1u64
    }

    fn one() -> (r: u64) {
        1u64
    }
}

impl Zero for i64 {
    open spec fn zero_spec() -> i64 {
        0i64
    }

    fn zero() -> (r: i64) {
        0i64
    }
}

impl One for i64 {
    open spec fn one_spec() -> i64 {
        1i64
    }

    fn one() -> (r: i64) {
        1i64
    }
}

impl Zero for usize {
    open spec fn zero_spec() -> usize {
        0usize
    }

    fn zero() -> (r: usize) {
        0usize
    }
}

impl One for usize {
    open spec fn one_spec() -> usize {
        1usize
    }

    fn one() -> (r: usize) {
        1usize
    }
}

/// A pair `re + im * i` of components of type `T`.
#[derive(Clone, Copy, Debug, PartialEq, Eq, Hash)]
pub struct Complex<T> {
    /// Real component.
    pub re: T,
    /// Imaginary component.
    pub im: T,
}

impl<T> Complex<T> {
    /// Builds the pair from its two components.
    pub fn new(re: T, im: T) -> (r: Self)
        ensures
            r.re == re,
            r.im == im,
    {
        Complex { re, im }
    }

    /// Swaps the two components.
    pub fn transpose(self) -> (r: Self)
        ensures
            r.re == self.im,
            r.im == self.re,
    {
        Complex { re: self.im, im: self.re }
    }
}

impl<T: Zero> Zero for Complex<T> {
    open spec fn zero_spec() -> Complex<T> {
        Complex { re: T::zero_spec(), im: T::zero_spec() }
    }

    fn zero() -> (r: Complex<T>) {
        Complex::new(T::zero(), T::zero())
    }
}

impl<T: Zero + One> One for Complex<T> {
    open spec fn one_spec() -> Complex<T> {
        Complex { re: T::one_spec(), im: T::zero_spec() }
    }

    fn one() -> (r: Complex<T>) {
        Complex::new(T::one(), T::zero())
    }
}

impl<T: Zero + One> Complex<T> {
    /// The imaginary unit.
    pub fn i() -> (r: Self)
        ensures
            r.re == T::zero_spec(),
            r.im == T::one_spec(),
    {
        Complex::new(T::zero(), T::one())
    }
}

impl Complex<i64> {
    /// The complex conjugate, negating the imaginary component.
    pub fn conjugate(self) -> (r: Self)
        ensures
            r.re == self.re,
            r.im == vstd::wrapping::i64_specs::wrapping_sub(0i64, self.im),
    {
        Complex::new(self.re, 0i64.wrapping_sub(self.im))
    }

    /// Dot product of the pairs viewed as plane vectors:
    /// `re * rhs.re + im * rhs.im`.
    pub fn dot(self, rhs: Self) -> (r: i64)
        ensures
            r == vstd::wrapping::i64_specs::wrapping_add(
                vstd::wrapping::i64_specs::wrapping_mul(self.re, rhs.re),
                vstd::wrapping::i64_specs::wrapping_mul(self.im, rhs.im),
            ),
    {
        self.re.wrapping_mul(rhs.re).wrapping_add(self.im.wrapping_mul(rhs.im))
    }

    /// Cross product of the pairs viewed as plane vectors:
    /// `re * rhs.im - im * rhs.re`.
    pub fn cross(self, rhs: Self) -> (r: i64)
        ensures
            r == vstd::wrapping::i64_specs::wrapping_sub(
                vstd::wrapping::i64_specs::wrapping_mul(self.re, rhs.im),
                vstd::wrapping::i64_specs::wrapping_mul(self.im, rhs.re),
            ),
    {
        self.re.wrapping_mul(rhs.im).wrapping_sub(self.im.wrapping_mul(rhs.re))
    }

    /// Squared magnitude: `re * re + im * im`.
    pub fn norm(self) -> (r: i64)
        ensures
            r == vstd::wrapping::i64_specs::wrapping_add(
                vstd::wrapping::i64_specs::wrapping_mul(self.re, self.re),
                vstd::wrapping::i64_specs::wrapping_mul(self.im, self.im),
            ),
    {
        self.re.wrapping_mul(self.re).wrapping_add(self.im.wrapping_mul(self.im))
    }
}

} // verus!
