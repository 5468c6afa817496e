//! The pseudo-random stream that the weights are drawn from.

use crate::matrix::{lemma_grid_eq, Grid, Matrix};
use crate::scalar::{deterministic, diff, lift, prod, quot, Scalar};
use vstd::prelude::*;

verus! {

/// The multiplier of the generator's linear step.
pub const MULTIPLIER: u64 = 6364136223846793005;

/// The state that follows `state`: `state * MULTIPLIER + 1` modulo 2^64.
pub open spec fn advance(state: u64) -> u64 {
    ((state as int * MULTIPLIER as int + 1) % 0x1_0000_0000_0000_0000) as u64
}

/// The number that the generator hands out in state `state`.
pub open spec fn scramble(state: u64) -> u64 {
    (state >> 33) ^ state
}

/// The state after `n` steps from `seed`.
pub open spec fn state_after(seed: u64, n: nat) -> u64
    decreases n,
{
    if n == 0 {
        seed
    } else {
        advance(state_after(seed, (n - 1) as nat))
    }
}

/// `b` steps after `a` steps are `a + b` steps.
pub proof fn lemma_state_after_add(seed: u64, a: nat, b: nat)
    ensures
        state_after(state_after(seed, a), b) == state_after(seed, a + b),
    decreases b,
{
    if b > 0 {
        lemma_state_after_add(seed, a, (b - 1) as nat);
    }
}

/// The `n`-th number drawn from `seed`, counting from 0.
pub open spec fn draw(seed: u64, n: nat) -> u64 {
    scramble(state_after(seed, n + 1))
}

/// A drawn number as a scalar between 0 and 1.
pub open spec fn unit<T: Scalar>(drawn: u64) -> T {
    quot(lift::<T>(drawn), lift::<T>(u64::MAX))
}

/// A drawn number as a weight between -1 and 1.
pub open spec fn weight<T: Scalar>(drawn: u64) -> T {
    diff(prod(unit::<T>(drawn), lift::<T>(2)), lift::<T>(1))
}

/// A matrix of the given shape filled, slot by slot in storage order, with
/// the weights drawn from `seed`.
pub open spec fn drawn_weights<T: Scalar>(rows: nat, cols: nat, seed: u64) -> Grid<T> {
    Grid::tabulate(rows, cols, |i: int, j: int| weight::<T>(draw(seed, (i * cols + j) as nat)))
}

/// A linear congruential generator over 64-bit states.
pub struct Rng {
    state: u64,
}

impl View for Rng {
    type V = u64;

    closed spec fn view(&self) -> u64 {
        self.state
    }
}

impl Rng {
    /// A generator in state `seed`.
    pub fn new(seed: u64) -> (rng: Rng)
        ensures
            rng@ == seed,
    {
        Rng { state: seed }
    }

    /// Steps the generator and returns the number of the new state.
    pub fn next(&mut self) -> (drawn: u64)
        ensures
            final(self)@ == advance(old(self)@),
            drawn == scramble(final(self)@),
    {
        let product: u64 = self.state.wrapping_mul(MULTIPLIER);
        proof {
            let x = self.state as int * MULTIPLIER as int;
            assert(0 <= x) by (nonlinear_arith)
                requires
                    x == self.state as int * MULTIPLIER as int,
                    0 <= self.state as int,
                    MULTIPLIER as int > 0,
            ;
            assert(product == x % 0x1_0000_0000_0000_0000);
            vstd::arithmetic::div_mod::lemma_add_mod_noop(x, 1, 0x1_0000_0000_0000_0000);
        }
        self.state = product.wrapping_add(1);
        (self.state >> 33) ^ self.state
    }

    /// Steps the generator and returns the number drawn as a scalar between 0
    /// and 1.
    pub fn next_f64<T: Scalar>(&mut self) -> (x: T)
        ensures
            final(self)@ == advance(old(self)@),
            deterministic::<T>() ==> x == unit::<T>(scramble(final(self)@)),
    {
        let drawn = self.next();
        T::from_u64(drawn).over(T::from_u64(u64::MAX))
    }
}

/// Overwrites the storage of `matrix`, slot by slot, with weights between -1
/// and 1 drawn from `rng`. The slots beyond the last cell take a draw too.
pub fn initialize_weights<T: Scalar>(matrix: &mut Matrix<T>, rng: &mut Rng)
    requires
        old(matrix).wf(),
    ensures
        final(matrix).wf(),
        final(matrix)@.same_shape(old(matrix)@),
        final(rng)@ == state_after(old(rng)@, old(matrix).capacity()),
        deterministic::<T>() ==> final(matrix)@ == drawn_weights::<T>(
            old(matrix)@.rows,
            old(matrix)@.cols,
            old(rng)@,
        ),
{
    let ghost seed = rng@;
    let ghost rows = matrix@.rows;
    let ghost cols = matrix@.cols;
    let total = matrix.slots();
    let mut index: usize = 0;
    while index < total
        invariant
            matrix.wf(),
            matrix@.rows == rows,
            matrix@.cols == cols,
            matrix.capacity() == total,
            index <= total,
            rng@ == state_after(seed, index as nat),
            deterministic::<T>() ==> forall|s: int|
                0 <= s < index ==> #[trigger] matrix.slot(s) == weight::<T>(draw(seed, s as nat)),
        decreases total - index,
    {
        let value = rng.next_f64::<T>().times(T::from_u64(2)).minus(T::from_u64(1));
        matrix.set_slot(index, value);
        index += 1;
    }
    proof {
        if deterministic::<T>() {
            let target = drawn_weights::<T>(rows, cols, seed);
            matrix.lemma_capacity();
            assert forall|i: int, j: int| 0 <= i < rows && 0 <= j < cols implies matrix@.cells[i][j]
                == target.cells[i][j] by {
                matrix.lemma_cell_slot(i, j);
                assert(matrix.slot(i * cols + j) == weight::<T>(draw(seed, (i * cols + j) as nat)));
            }
            lemma_grid_eq(matrix@, target);
        }
    }
}

} // verus!
