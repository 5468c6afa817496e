//! Softmax, the choice of the largest entry, and the exponential and the
//! logarithm as series.

use crate::scalar::{deterministic, diff, exp_of, gt, lift, one, prod, quot, sum, zero, Scalar};
use vstd::prelude::*;

verus! {

/// The largest of `best` and the first `n` of `xs`, where a later entry takes
/// the place of an earlier one unless the earlier one exceeds it.
pub open spec fn max_from<T: Scalar>(best: T, xs: Seq<T>, n: nat) -> T
    decreases n,
{
    if n == 0 {
        best
    } else {
        let before = max_from(best, xs, (n - 1) as nat);
        if gt(before, xs[n - 1]) {
            before
        } else {
            xs[n - 1]
        }
    }
}

/// The largest entry of `xs`.
pub open spec fn maximum<T: Scalar>(xs: Seq<T>) -> T {
    max_from(xs[0], xs, xs.len())
}

/// `init` plus the first `n` of `xs`, added up from the left.
pub open spec fn sum_from<T: Scalar>(init: T, xs: Seq<T>, n: nat) -> T
    decreases n,
{
    if n == 0 {
        init
    } else {
        sum(sum_from(init, xs, (n - 1) as nat), xs[n - 1])
    }
}

/// The exponential of each entry of `xs` less the largest one.
pub open spec fn shifted_exps<T: Scalar>(xs: Seq<T>) -> Seq<T> {
    Seq::new(xs.len(), |i: int| exp_of(diff(xs[i], maximum(xs))))
}

/// The softmax of `xs`: the exponentials of the entries, less the largest
/// one, each divided by their sum.
pub open spec fn softmax_of<T: Scalar>(xs: Seq<T>) -> Seq<T> {
    Seq::new(
        xs.len(),
        |i: int| quot(shifted_exps(xs)[i], sum_from(zero::<T>(), shifted_exps(xs), xs.len())),
    )
}

/// The index of the largest of the first `n` of `xs`; of several that are
/// largest, the first.
pub open spec fn argmax_from<T: Scalar>(xs: Seq<T>, n: nat) -> int
    decreases n,
{
    if n <= 1 {
        0
    } else {
        let before = argmax_from(xs, (n - 1) as nat);
        if gt(xs[n - 1], xs[before]) {
            n - 1
        } else {
            before
        }
    }
}

/// The index of the largest entry of `xs`; of several, the first.
pub open spec fn argmax_of<T: Scalar>(xs: Seq<T>) -> int {
    argmax_from(xs, xs.len())
}

/// One ten-billionth: the size below which a term of a series ends it.
pub open spec fn tiny<T: Scalar>() -> T {
    quot(one::<T>(), lift::<T>(10_000_000_000))
}

/// `x` lies strictly between minus one ten-billionth and one ten-billionth.
pub open spec fn negligible<T: Scalar>(x: T) -> bool {
    gt(tiny::<T>(), x) && gt(tiny::<T>(), diff(zero::<T>(), x))
}

/// The series of the exponential of `x` after `n` terms beyond the first:
/// the sum so far, the last term, and whether a term was negligible, which
/// ends the series.
pub open spec fn exp_series<T: Scalar>(x: T, n: nat) -> (T, T, bool)
    decreases n,
{
    if n == 0 {
        (one::<T>(), one::<T>(), false)
    } else {
        let before = exp_series(x, (n - 1) as nat);
        if before.2 {
            before
        } else {
            let term = prod(before.1, quot(x, lift::<T>(n as u64)));
            (sum(before.0, term), term, negligible(term))
        }
    }
}

/// The series of half the logarithm of `x` in powers of `(x - 1) / (x + 1)`
/// after `n` terms: the sum so far, the next power, the next odd number, and
/// whether a power was negligible, which ends the series.
pub open spec fn ln_series<T: Scalar>(x: T, n: nat) -> (T, T, T, bool)
    decreases n,
{
    if n == 0 {
        (zero::<T>(), quot(diff(x, one::<T>()), sum(x, one::<T>())), one::<T>(), false)
    } else {
        let before = ln_series(x, (n - 1) as nat);
        if before.3 {
            before
        } else {
            let ratio = quot(
                prod(diff(x, one::<T>()), diff(x, one::<T>())),
                prod(sum(x, one::<T>()), sum(x, one::<T>())),
            );
            let term = prod(before.1, ratio);
            (
                sum(before.0, quot(before.1, before.2)),
                term,
                sum(before.2, lift::<T>(2)),
                negligible(term),
            )
        }
    }
}

/// The softmax of `input`, computed in a numerically stable way: the largest
/// entry is taken off each entry before the exponential.
#[verifier::loop_isolation(false)]
pub fn softmax<T: Scalar>(input: &[T]) -> (output: Vec<T>)
    requires
        input@.len() > 0,
    ensures
        output@.len() == input@.len(),
        deterministic::<T>() ==> output@ == softmax_of(input@),
{
    let n = input.len();
    let mut max_val = input[0];
    let mut i: usize = 0;
    while i < n
        invariant
            i <= n,
            deterministic::<T>() ==> max_val == max_from(input@[0], input@, i as nat),
        decreases n - i,
    {
        let x = input[i];
        if !max_val.exceeds(x) {
            max_val = x;
        }
        i += 1;
    }
    let mut exp_vals: Vec<T> = Vec::new();
    let mut i: usize = 0;
    while i < n
        invariant
            i <= n,
            exp_vals@.len() == i,
            deterministic::<T>() ==> forall|k: int|
                0 <= k < i ==> exp_vals@[k] == shifted_exps(input@)[k],
        decreases n - i,
    {
        exp_vals.push(input[i].minus(max_val).exp());
        i += 1;
    }
    let mut sum_exp_vals = T::from_u64(0);
    let mut i: usize = 0;
    while i < n
        invariant
            i <= n,
            deterministic::<T>() ==> sum_exp_vals == sum_from(zero::<T>(), exp_vals@, i as nat),
        decreases n - i,
    {
        sum_exp_vals = sum_exp_vals.plus(exp_vals[i]);
        i += 1;
    }
    let mut output: Vec<T> = Vec::new();
    let mut i: usize = 0;
    while i < n
        invariant
            i <= n,
            output@.len() == i,
            deterministic::<T>() ==> forall|k: int|
                0 <= k < i ==> output@[k] == quot(exp_vals@[k], sum_exp_vals),
        decreases n - i,
    {
        output.push(exp_vals[i].over(sum_exp_vals));
        i += 1;
    }
    proof {
        if deterministic::<T>() {
            assert(exp_vals@ =~= shifted_exps(input@));
            assert(output@ =~= softmax_of(input@));
        }
    }
    output
}

/// The index of the largest entry of `values`; of several that are largest,
/// the first.
#[verifier::loop_isolation(false)]
pub fn argmax<T: Scalar>(values: &[T]) -> (index: usize)
    requires
        values@.len() > 0,
    ensures
        index < values@.len(),
        deterministic::<T>() ==> index == argmax_of(values@),
{
    let n = values.len();
    let mut best: usize = 0;
    let mut i: usize = 1;
    while i < n
        invariant
            1 <= i <= n,
            best < i,
            deterministic::<T>() ==> best == argmax_from(values@, i as nat),
        decreases n - i,
    {
        if values[i].exceeds(values[best]) {
            best = i;
        }
        i += 1;
    }
    best
}

/// Whether `x` lies strictly between minus one ten-billionth and one
/// ten-billionth.
fn is_negligible<T: Scalar>(x: T) -> (small: bool)
    ensures
        deterministic::<T>() ==> small == negligible(x),
{
    let bound = T::from_u64(1).over(T::from_u64(10_000_000_000));
    bound.exceeds(x) && bound.exceeds(T::from_u64(0).minus(x))
}

/// The exponential of `x` by its power series: at most 99 terms beyond the
/// first, and none after a negligible one.
pub fn exp<T: Scalar>(x: T) -> (result: T)
    ensures
        deterministic::<T>() ==> result == exp_series(x, 99).0,
{
    let mut total = T::from_u64(1);
    let mut term = T::from_u64(1);
    let mut stopped = false;
    let mut i: u64 = 1;
    while i < 100
        invariant
            1 <= i <= 100,
            deterministic::<T>() ==> (total, term, stopped) == exp_series(x, (i - 1) as nat),
        decreases 100 - i,
    {
        if !stopped {
            term = term.times(x.over(T::from_u64(i)));
            total = total.plus(term);
            stopped = is_negligible(term);
        }
        i += 1;
    }
    total
}

/// The natural logarithm of `x` by the series in powers of `(x - 1) / (x +
/// 1)`: at most 100 terms, and none after a negligible power.
pub fn ln<T: Scalar>(x: T) -> (result: T)
    ensures
        deterministic::<T>() ==> result == prod(lift::<T>(2), ln_series(x, 100).0),
{
    let mut total = T::from_u64(0);
    let mut term = x.minus(T::from_u64(1)).over(x.plus(T::from_u64(1)));
    let mut n = T::from_u64(1);
    let mut stopped = false;
    let mut i: u64 = 0;
    while i < 100
        invariant
            i <= 100,
            deterministic::<T>() ==> (total, term, n, stopped) == ln_series(x, i as nat),
        decreases 100 - i,
    {
        if !stopped {
            total = total.plus(term.over(n));
            let above = x.minus(T::from_u64(1)).times(x.minus(T::from_u64(1)));
            let below = x.plus(T::from_u64(1)).times(x.plus(T::from_u64(1)));
            term = term.times(above.over(below));
            n = n.plus(T::from_u64(2));
            stopped = is_negligible(term);
        }
        i += 1;
    }
    T::from_u64(2).times(total)
}

} // verus!
