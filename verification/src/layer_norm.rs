//! Layer normalization: every row is brought to mean zero and variance one,
//! then scaled and shifted.

use crate::matrix::{lemma_grid_eq, Grid, Matrix};
use crate::numeric::sum_from;
use crate::scalar::{deterministic, diff, lift, one, prod, quot, root, sum, zero, Scalar};
use vstd::prelude::*;

verus! {

/// The small number that keeps a variance away from zero: one millionth.
pub open spec fn epsilon<T: Scalar>() -> T {
    quot(one::<T>(), lift::<T>(1_000_000))
}

/// The mean of the first `n` entries of `row`.
pub open spec fn row_mean<T: Scalar>(row: Seq<T>, n: nat) -> T {
    quot(sum_from(zero::<T>(), row, n), lift::<T>(n as u64))
}

/// The squares of the first `n` entries of `row` less `mean`.
pub open spec fn squares<T: Scalar>(row: Seq<T>, mean: T, n: nat) -> Seq<T> {
    Seq::new(n, |j: int| prod(diff(row[j], mean), diff(row[j], mean)))
}

/// The mean square of the first `n` entries of `row` less `mean`.
pub open spec fn row_variance<T: Scalar>(row: Seq<T>, mean: T, n: nat) -> T {
    quot(sum_from(zero::<T>(), squares(row, mean, n), n), lift::<T>(n as u64))
}

/// The normalized input: in every row, the first `gamma.len()` entries less
/// their mean, over the square root of their variance, scaled by `gamma` and
/// shifted by `beta`.
pub open spec fn normalized<T: Scalar>(input: Grid<T>, gamma: Seq<T>, beta: Seq<T>) -> Grid<T> {
    Grid::tabulate(
        input.rows,
        gamma.len(),
        |i: int, j: int|
            {
                let mean = row_mean(input.cells[i], gamma.len());
                let variance = row_variance(input.cells[i], mean, gamma.len());
                sum(
                    quot(
                        prod(gamma[j], diff(input.cells[i][j], mean)),
                        root(sum(variance, epsilon::<T>())),
                    ),
                    beta[j],
                )
            },
    )
}

/// The mean of row `i` of the gradient `g`, over all its columns.
pub open spec fn gradient_mean<T: Scalar>(g: Grid<T>, i: int) -> T {
    row_mean(g.cells[i], g.cols)
}

/// The deviation that the backward pass divides row `i` of `g` by: the root
/// of the variance of its first `dim` entries, with `epsilon` added twice.
pub open spec fn gradient_deviation<T: Scalar>(g: Grid<T>, i: int, dim: nat) -> T {
    root(
        sum(
            sum(row_variance(g.cells[i], gradient_mean(g, i), dim), epsilon::<T>()),
            epsilon::<T>(),
        ),
    )
}

/// Cell `(i, j)` of `g`, less the mean of its row, over the row's deviation.
pub open spec fn gradient_normed<T: Scalar>(g: Grid<T>, i: int, j: int, dim: nat) -> T {
    quot(diff(g.cells[i][j], gradient_mean(g, i)), gradient_deviation(g, i, dim))
}

/// The gradient by `gamma[j]` from the rows `0 .. n` of `g`.
pub open spec fn scale_gradient<T: Scalar>(g: Grid<T>, j: int, dim: nat, n: nat) -> T {
    sum_from(
        zero::<T>(),
        Seq::new(g.rows, |i: int| prod(g.cells[i][j], gradient_normed(g, i, j, dim))),
        n,
    )
}

/// The gradient by `beta[j]` from the rows `0 .. n` of `g`.
pub open spec fn shift_gradient<T: Scalar>(g: Grid<T>, j: int, n: nat) -> T {
    sum_from(zero::<T>(), g.col(j), n)
}

/// The gradient by the layer's input. In the columns that the layer
/// normalizes, row `i` uses the gradients by `gamma` and `beta` as the rows
/// `0 ..= i` have made them; the other columns pass `g` on.
pub open spec fn input_gradient<T: Scalar>(g: Grid<T>, gamma: Seq<T>) -> Grid<T> {
    Grid::tabulate(
        g.rows,
        g.cols,
        |i: int, j: int|
            if j < gamma.len() {
                let dim = gamma.len();
                let mixed = sum(
                    shift_gradient(g, j, (i + 1) as nat),
                    prod(gradient_normed(g, i, j, dim), scale_gradient(g, j, dim, (i + 1) as nat)),
                );
                quot(
                    prod(gamma[j], diff(g.cells[i][j], quot(mixed, lift::<T>(g.cols as u64)))),
                    gradient_deviation(g, i, dim),
                )
            } else {
                g.cells[i][j]
            },
    )
}

/// `gamma` after one step along its gradient from all rows of `g`.
pub open spec fn stepped_scale<T: Scalar>(gamma: Seq<T>, g: Grid<T>, learning_rate: T) -> Seq<T> {
    Seq::new(
        gamma.len(),
        |j: int| diff(gamma[j], prod(learning_rate, scale_gradient(g, j, gamma.len(), g.rows))),
    )
}

/// `beta` after one step along its gradient from all rows of `g`.
pub open spec fn stepped_shift<T: Scalar>(beta: Seq<T>, g: Grid<T>, learning_rate: T) -> Seq<T> {
    Seq::new(beta.len(), |j: int| diff(beta[j], prod(learning_rate, shift_gradient(g, j, g.rows))))
}

/// A vector of `len` copies of what `T::from_u64(n)` gives.
fn constants<T: Scalar>(len: usize, n: u64) -> (v: Vec<T>)
    ensures
        v@.len() == len,
        deterministic::<T>() ==> v@ == Seq::new(len as nat, |i: int| lift::<T>(n)),
{
    let mut v: Vec<T> = Vec::new();
    let mut i: usize = 0;
    while i < len
        invariant
            i <= len,
            v@.len() == i,
            deterministic::<T>() ==> forall|k: int| 0 <= k < i ==> v@[k] == lift::<T>(n),
        decreases len - i,
    {
        v.push(T::from_u64(n));
        i += 1;
    }
    proof {
        if deterministic::<T>() {
            assert(v@ =~= Seq::new(len as nat, |i: int| lift::<T>(n)));
        }
    }
    v
}

/// Layer normalization over the first `dim` columns, with a scale `gamma`
/// and a shift `beta` per column.
pub struct LayerNorm<T> {
    pub dim: usize,
    pub gamma: Vec<T>,
    pub beta: Vec<T>,
}

impl<T: Scalar> LayerNorm<T> {
    /// There is one scale and one shift for each of the `dim` columns.
    pub open spec fn wf(&self) -> bool {
        &&& self.gamma@.len() == self.dim
        &&& self.beta@.len() == self.dim
    }

    /// What the layer makes of `input`.
    pub open spec fn output(&self, input: Grid<T>) -> Grid<T> {
        normalized(input, self.gamma@, self.beta@)
    }

    /// The gradient by the layer's input, given the gradient `g` by its
    /// output.
    pub open spec fn passed_back(&self, g: Grid<T>) -> Grid<T> {
        input_gradient(g, self.gamma@)
    }

    /// `self` is `before` after one backward pass with the gradient `g`.
    pub open spec fn stepped(&self, before: Self, g: Grid<T>, learning_rate: T) -> bool {
        &&& self.dim == before.dim
        &&& self.gamma@ == stepped_scale(before.gamma@, g, learning_rate)
        &&& self.beta@ == stepped_shift(before.beta@, g, learning_rate)
    }

    /// A layer with every scale one and every shift zero.
    pub fn new(dim: usize) -> (layer: Self)
        ensures
            layer.wf(),
            layer.dim == dim,
            deterministic::<T>() ==> layer.gamma@ == Seq::new(dim as nat, |i: int| one::<T>()),
            deterministic::<T>() ==> layer.beta@ == Seq::new(dim as nat, |i: int| zero::<T>()),
    {
        let gamma = constants(dim, 1);
        let beta = constants(dim, 0);
        LayerNorm { dim, gamma, beta }
    }

    /// The mean of the first `n` cells of row `i` of `m`.
    #[verifier::loop_isolation(false)]
    fn mean_of_row(m: &Matrix<T>, i: usize, n: usize) -> (mean: T)
        requires
            m.wf(),
            i < m@.rows,
            n <= m@.cols,
        ensures
            deterministic::<T>() ==> mean == row_mean(m@.cells[i as int], n as nat),
    {
        let mut total = T::from_u64(0);
        let mut j: usize = 0;
        while j < n
            invariant
                j <= n,
                deterministic::<T>() ==> total == sum_from(
                    zero::<T>(),
                    m@.cells[i as int],
                    j as nat,
                ),
            decreases n - j,
        {
            total = total.plus(m.get(i, j));
            j += 1;
        }
        total.over(T::from_u64(n as u64))
    }

    /// The mean square of the first `n` cells of row `i` of `m` less `mean`.
    #[verifier::loop_isolation(false)]
    fn variance_of_row(m: &Matrix<T>, i: usize, mean: T, n: usize) -> (variance: T)
        requires
            m.wf(),
            i < m@.rows,
            n <= m@.cols,
        ensures
            deterministic::<T>() ==> variance == row_variance(m@.cells[i as int], mean, n as nat),
    {
        let ghost terms = squares(m@.cells[i as int], mean, n as nat);
        let mut total = T::from_u64(0);
        let mut j: usize = 0;
        while j < n
            invariant
                j <= n,
                deterministic::<T>() ==> total == sum_from(zero::<T>(), terms, j as nat),
            decreases n - j,
        {
            let centered = m.get(i, j).minus(mean);
            total = total.plus(centered.times(centered));
            j += 1;
        }
        total.over(T::from_u64(n as u64))
    }

    /// The normalized `input`, one row per position and `dim` columns.
    #[verifier::loop_isolation(false)]
    pub fn forward(&self, input: &Matrix<T>) -> (normed: Matrix<T>)
        requires
            self.wf(),
            input.wf(),
            self.dim <= input@.cols,
        ensures
            normed.wf(),
            normed@.rows == input@.rows,
            normed@.cols == self.dim,
            deterministic::<T>() ==> normed@ == normalized(input@, self.gamma@, self.beta@),
    {
        let rows = input.rows();
        let dim = self.dim;
        proof {
            assert(rows * dim <= rows * input@.cols) by (nonlinear_arith)
                requires
                    dim <= input@.cols,
                    0 <= rows,
            ;
        }
        let ghost target = normalized(input@, self.gamma@, self.beta@);
        let mut normed = Matrix::new(rows, dim);
        let mut i: usize = 0;
        while i < rows
            invariant
                normed.wf(),
                normed@.rows == rows,
                normed@.cols == dim,
                i <= rows,
                deterministic::<T>() ==> forall|a: int, b: int|
                    0 <= a < i && 0 <= b < dim ==> normed@.cells[a][b] == target.cells[a][b],
            decreases rows - i,
        {
            let mean = Self::mean_of_row(input, i, dim);
            let variance = Self::variance_of_row(input, i, mean, dim);
            let mut j: usize = 0;
            while j < dim
                invariant
                    normed.wf(),
                    normed@.rows == rows,
                    normed@.cols == dim,
                    i < rows,
                    j <= dim,
                    deterministic::<T>() ==> forall|a: int, b: int|
                        0 <= a < i && 0 <= b < dim ==> normed@.cells[a][b] == target.cells[a][b],
                    deterministic::<T>() ==> forall|b: int|
                        0 <= b < j ==> normed@.cells[i as int][b] == target.cells[i as int][b],
                decreases dim - j,
            {
                let epsilon = T::from_u64(1).over(T::from_u64(1_000_000));
                let value = self.gamma[j].times(input.get(i, j).minus(mean)).over(
                    variance.plus(epsilon).sqrt(),
                ).plus(self.beta[j]);
                normed.set(i, j, value);
                j += 1;
            }
            i += 1;
        }
        proof {
            if deterministic::<T>() {
                lemma_grid_eq(normed@, target);
            }
        }
        normed
    }

    /// One step of gradient descent on `gamma` and `beta`, given the gradient
    /// `gradients` of the loss by the layer's output. Returns the gradient
    /// by the layer's input.
    ///
    /// The layer keeps nothing of its forward pass: mean and deviation are
    /// those of the rows of `gradients` itself.
    #[verifier::loop_isolation(false)]
    pub fn backward(&mut self, gradients: &Matrix<T>, learning_rate: T) -> (d_input: Matrix<T>)
        requires
            old(self).wf(),
            gradients.wf(),
            old(self).dim <= gradients@.cols,
        ensures
            final(self).wf(),
            final(self).dim == old(self).dim,
            d_input.wf(),
            d_input@.same_shape(gradients@),
            deterministic::<T>() ==> {
                &&& d_input@ == input_gradient(gradients@, old(self).gamma@)
                &&& final(self).gamma@ == stepped_scale(old(self).gamma@, gradients@, learning_rate)
                &&& final(self).beta@ == stepped_shift(old(self).beta@, gradients@, learning_rate)
            },
    {
        let rows = gradients.rows();
        let cols = gradients.cols();
        let dim = self.dim;
        let ghost g = gradients@;
        let ghost target = input_gradient(g, self.gamma@);
        let mut d_input = Matrix::new(rows, cols);
        let mut d_gamma: Vec<T> = constants(dim, 0);
        let mut d_beta: Vec<T> = constants(dim, 0);
        let mut i: usize = 0;
        while i < rows
            invariant
                d_input.wf(),
                d_input@.same_shape(g),
                d_gamma@.len() == dim,
                d_beta@.len() == dim,
                i <= rows,
                deterministic::<T>() ==> forall|b: int|
                    0 <= b < dim ==> (#[trigger] d_gamma@[b]) == scale_gradient(
                        g,
                        b,
                        dim as nat,
                        i as nat,
                    ),
                deterministic::<T>() ==> forall|b: int|
                    0 <= b < dim ==> (#[trigger] d_beta@[b]) == shift_gradient(g, b, i as nat),
                deterministic::<T>() ==> forall|a: int, b: int|
                    0 <= a < i && 0 <= b < cols ==> d_input@.cells[a][b] == target.cells[a][b],
            decreases rows - i,
        {
            let epsilon = T::from_u64(1).over(T::from_u64(1_000_000));
            let mean = Self::mean_of_row(gradients, i, cols);
            let variance = Self::variance_of_row(gradients, i, mean, dim).plus(epsilon);
            let std_dev = variance.plus(epsilon).sqrt();
            let mut j: usize = 0;
            while j < cols
                invariant
                    d_input.wf(),
                    d_input@.same_shape(g),
                    d_gamma@.len() == dim,
                    d_beta@.len() == dim,
                    i < rows,
                    j <= cols,
                    deterministic::<T>() ==> forall|b: int|
                        0 <= b < dim && b < j ==> (#[trigger] d_gamma@[b]) == scale_gradient(
                            g,
                            b,
                            dim as nat,
                            (i + 1) as nat,
                        ),
                    deterministic::<T>() ==> forall|b: int|
                        0 <= b < dim && b < j ==> (#[trigger] d_beta@[b]) == shift_gradient(
                            g,
                            b,
                            (i + 1) as nat,
                        ),
                    deterministic::<T>() ==> forall|b: int|
                        j <= b < dim ==> (#[trigger] d_gamma@[b]) == scale_gradient(
                            g,
                            b,
                            dim as nat,
                            i as nat,
                        ),
                    deterministic::<T>() ==> forall|b: int|
                        j <= b < dim ==> (#[trigger] d_beta@[b]) == shift_gradient(g, b, i as nat),
                    deterministic::<T>() ==> forall|a: int, b: int|
                        0 <= a < i && 0 <= b < cols ==> d_input@.cells[a][b] == target.cells[a][b],
                    deterministic::<T>() ==> forall|b: int|
                        0 <= b < j ==> d_input@.cells[i as int][b] == target.cells[i as int][b],
                decreases cols - j,
            {
                let value = gradients.get(i, j);
                let x_centered = value.minus(mean);
                let x_norm = x_centered.over(std_dev);
                if j < dim {
                    let scale = d_gamma[j].plus(value.times(x_norm));
                    d_gamma.set(j, scale);
                    let shift = d_beta[j].plus(value);
                    d_beta.set(j, shift);
                    let mixed = d_beta[j].plus(x_norm.times(d_gamma[j]));
                    d_input.set(
                        i,
                        j,
                        self.gamma[j].times(value.minus(mixed.over(T::from_u64(cols as u64)))).over(
                            std_dev,
                        ),
                    );
                } else {
                    d_input.set(i, j, value);
                }
                j += 1;
            }
            i += 1;
        }
        proof {
            if deterministic::<T>() {
                lemma_grid_eq(d_input@, target);
            }
        }
        let ghost gamma_before = self.gamma@;
        let ghost beta_before = self.beta@;
        let mut j: usize = 0;
        while j < dim
            invariant
                self.wf(),
                self.dim == dim,
                j <= dim,
                forall|b: int| j <= b < dim ==> self.gamma@[b] == gamma_before[b],
                forall|b: int| j <= b < dim ==> self.beta@[b] == beta_before[b],
                deterministic::<T>() ==> forall|b: int|
                    0 <= b < j ==> (#[trigger] self.gamma@[b]) == stepped_scale(
                        gamma_before,
                        g,
                        learning_rate,
                    )[b],
                deterministic::<T>() ==> forall|b: int|
                    0 <= b < j ==> (#[trigger] self.beta@[b]) == stepped_shift(
                        beta_before,
                        g,
                        learning_rate,
                    )[b],
            decreases dim - j,
        {
            proof {
                if deterministic::<T>() {
                    assert(d_gamma@[j as int] == scale_gradient(
                        g,
                        j as int,
                        dim as nat,
                        rows as nat,
                    ));
                    assert(d_beta@[j as int] == shift_gradient(g, j as int, rows as nat));
                }
            }
            let scale = self.gamma[j].minus(learning_rate.times(d_gamma[j]));
            self.gamma.set(j, scale);
            let shift = self.beta[j].minus(learning_rate.times(d_beta[j]));
            self.beta.set(j, shift);
            j += 1;
        }
        proof {
            if deterministic::<T>() {
                assert(self.gamma@ =~= stepped_scale(gamma_before, g, learning_rate));
                assert(self.beta@ =~= stepped_shift(beta_before, g, learning_rate));
            }
        }
        d_input
    }
}

} // verus!
