//! The numbers that the model computes with.
//!
//! The model is written against [`Scalar`], a small set of arithmetic
//! operations, rather than against one number type; double-precision
//! floating point is the type it is meant for. Nothing is assumed of an
//! implementation, so what is proved holds for every one of them.
//!
//! A contract cannot look into an operation, so it names the results:
//! [`sum`]`(a, b)` is a value that `a.plus(b)` may return, and likewise for
//! the other operations. Where every operation of `T` is a function of its
//! operands, which is what [`deterministic`] says, these are the values that
//! the operations do return, and a contract over them says exactly what a
//! function computes. An implementation whose every method ensures that its
//! result equals one fixed expression in its operands is deterministic.

use vstd::prelude::*;

verus! {

/// Arithmetic on the numbers of the model.
///
/// Every method is total: it returns a value for all operands (for reals in
/// machine precision, an infinity or a not-a-number where there is no other).
pub trait Scalar: Copy {
    /// The scalar nearest to the integer `n`.
    fn from_u64(n: u64) -> Self;

    /// `self + rhs`.
    fn plus(self, rhs: Self) -> Self;

    /// `self - rhs`.
    fn minus(self, rhs: Self) -> Self;

    /// `self * rhs`.
    fn times(self, rhs: Self) -> Self;

    /// `self / rhs`.
    fn over(self, rhs: Self) -> Self;

    /// The square root of `self`.
    fn sqrt(self) -> Self;

    /// `e` raised to `self`.
    fn exp(self) -> Self;

    /// The natural logarithm of `self`.
    fn ln(self) -> Self;

    /// The sine of `self` radians.
    fn sin(self) -> Self;

    /// The cosine of `self` radians.
    fn cos(self) -> Self;

    /// `self` raised to `exponent`.
    fn powf(self, exponent: Self) -> Self;

    /// Whether `self > rhs`.
    fn exceeds(self, rhs: Self) -> bool;
}

/// A result of `T::from_u64(n)`.
pub open spec fn lift<T: Scalar>(n: u64) -> T {
    choose|r: T| call_ensures(T::from_u64, (n,), r)
}

/// A result of `a.plus(b)`.
pub open spec fn sum<T: Scalar>(a: T, b: T) -> T {
    choose|r: T| call_ensures(T::plus, (a, b), r)
}

/// A result of `a.minus(b)`.
pub open spec fn diff<T: Scalar>(a: T, b: T) -> T {
    choose|r: T| call_ensures(T::minus, (a, b), r)
}

/// A result of `a.times(b)`.
pub open spec fn prod<T: Scalar>(a: T, b: T) -> T {
    choose|r: T| call_ensures(T::times, (a, b), r)
}

/// A result of `a.over(b)`.
pub open spec fn quot<T: Scalar>(a: T, b: T) -> T {
    choose|r: T| call_ensures(T::over, (a, b), r)
}

/// A result of `a.sqrt()`.
pub open spec fn root<T: Scalar>(a: T) -> T {
    choose|r: T| call_ensures(T::sqrt, (a,), r)
}

/// A result of `a.exp()`.
pub open spec fn exp_of<T: Scalar>(a: T) -> T {
    choose|r: T| call_ensures(T::exp, (a,), r)
}

/// A result of `a.ln()`.
pub open spec fn ln_of<T: Scalar>(a: T) -> T {
    choose|r: T| call_ensures(T::ln, (a,), r)
}

/// A result of `a.sin()`.
pub open spec fn sin_of<T: Scalar>(a: T) -> T {
    choose|r: T| call_ensures(T::sin, (a,), r)
}

/// A result of `a.cos()`.
pub open spec fn cos_of<T: Scalar>(a: T) -> T {
    choose|r: T| call_ensures(T::cos, (a,), r)
}

/// A result of `a.powf(e)`.
pub open spec fn pow_of<T: Scalar>(a: T, e: T) -> T {
    choose|r: T| call_ensures(T::powf, (a, e), r)
}

/// A result of `a.exceeds(b)`.
pub open spec fn gt<T: Scalar>(a: T, b: T) -> bool {
    choose|r: bool| call_ensures(T::exceeds, (a, b), r)
}

/// Every operation of `T` is a function of its operands: whatever it returns
/// is the value that this module names for it.
pub open spec fn deterministic<T: Scalar>() -> bool {
    &&& forall|n: u64, r: T| #[trigger] call_ensures(T::from_u64, (n,), r) ==> r == lift::<T>(n)
    &&& forall|a: T, b: T, r: T| #[trigger] call_ensures(T::plus, (a, b), r) ==> r == sum(a, b)
    &&& forall|a: T, b: T, r: T| #[trigger] call_ensures(T::minus, (a, b), r) ==> r == diff(a, b)
    &&& forall|a: T, b: T, r: T| #[trigger] call_ensures(T::times, (a, b), r) ==> r == prod(a, b)
    &&& forall|a: T, b: T, r: T| #[trigger] call_ensures(T::over, (a, b), r) ==> r == quot(a, b)
    &&& forall|a: T, r: T| #[trigger] call_ensures(T::sqrt, (a,), r) ==> r == root(a)
    &&& forall|a: T, r: T| #[trigger] call_ensures(T::exp, (a,), r) ==> r == exp_of(a)
    &&& forall|a: T, r: T| #[trigger] call_ensures(T::ln, (a,), r) ==> r == ln_of(a)
    &&& forall|a: T, r: T| #[trigger] call_ensures(T::sin, (a,), r) ==> r == sin_of(a)
    &&& forall|a: T, r: T| #[trigger] call_ensures(T::cos, (a,), r) ==> r == cos_of(a)
    &&& forall|a: T, e: T, r: T| #[trigger] call_ensures(T::powf, (a, e), r) ==> r == pow_of(a, e)
    &&& forall|a: T, b: T, r: bool| #[trigger] call_ensures(T::exceeds, (a, b), r) ==> r == gt(a, b)
}

/// Zero, as the model writes it.
pub open spec fn zero<T: Scalar>() -> T {
    lift::<T>(0)
}

/// One, as the model writes it.
pub open spec fn one<T: Scalar>() -> T {
    lift::<T>(1)
}

/// The running sum `init + xs[0] * ys[0] + ... + xs[n - 1] * ys[n - 1]`, added
/// up from the left.
pub open spec fn dot_from<T: Scalar>(init: T, xs: Seq<T>, ys: Seq<T>, n: nat) -> T
    decreases n,
{
    if n == 0 {
        init
    } else {
        sum(dot_from(init, xs, ys, (n - 1) as nat), prod(xs[n - 1], ys[n - 1]))
    }
}

} // verus!
