//! The position-wise feed-forward network: two linear layers with a ReLU
//! between them.

use crate::matrix::{fits, lemma_grid_eq, Grid, Matrix};
use crate::scalar::{deterministic, diff, dot_from, gt, prod, sum, zero, Scalar};
use vstd::prelude::*;

verus! {

/// The width of the hidden layer for inputs of width `input_dim`.
pub open spec fn hidden_dim(input_dim: nat) -> nat {
    input_dim * 4
}

/// `x` where it exceeds zero, and zero elsewhere.
pub open spec fn relu<T: Scalar>(x: T) -> T {
    if gt(x, zero::<T>()) {
        x
    } else {
        zero::<T>()
    }
}

/// The linear layer `x * w + b`: cell `(i, j)` starts at `b[j]` and adds up
/// row `i` of `x` times column `j` of `w` from the left.
pub open spec fn affine<T: Scalar>(x: Grid<T>, w: Grid<T>, b: Seq<T>) -> Grid<T> {
    Grid::tabulate(
        x.rows,
        w.cols,
        |i: int, j: int| dot_from(b[j], x.cells[i], w.col(j), w.rows),
    )
}

/// The ReLU of every cell.
pub open spec fn relu_cells<T: Scalar>(x: Grid<T>) -> Grid<T> {
    Grid::tabulate(x.rows, x.cols, |i: int, j: int| relu(x.cells[i][j]))
}

/// The network's output: `relu(input * w1 + b1) * w2 + b2`.
pub open spec fn feed_forward<T: Scalar>(
    input: Grid<T>,
    w1: Grid<T>,
    b1: Seq<T>,
    w2: Grid<T>,
    b2: Seq<T>,
) -> Grid<T> {
    affine(relu_cells(affine(input, w1, b1)), w2, b2)
}

/// One step of the pass through the second layer, at position `i`, hidden
/// unit `j` and output `k`: the unit's gradient takes in `g[i][k] *
/// w2[j][k]`, and the weight then steps along the gradient so far.
pub open spec fn second_step<T: Scalar>(
    state: (Grid<T>, Grid<T>),
    g: Grid<T>,
    learning_rate: T,
    i: int,
    j: int,
    k: int,
) -> (Grid<T>, Grid<T>) {
    let (hidden, w2) = state;
    let h = sum(hidden.cells[i][j], prod(g.cells[i][k], w2.cells[j][k]));
    (
        hidden.set(i, j, h),
        w2.set(j, k, diff(w2.cells[j][k], prod(prod(learning_rate, g.cells[i][k]), h))),
    )
}

/// The steps for the outputs `0 .. n` at position `i` and hidden unit `j`.
pub open spec fn second_unit<T: Scalar>(
    state: (Grid<T>, Grid<T>),
    g: Grid<T>,
    learning_rate: T,
    i: int,
    j: int,
    n: nat,
) -> (Grid<T>, Grid<T>)
    decreases n,
{
    if n == 0 {
        state
    } else {
        second_step(second_unit(state, g, learning_rate, i, j, (n - 1) as nat), g, learning_rate, i, j, n - 1)
    }
}

/// The steps for the hidden units `0 .. n` at position `i`.
pub open spec fn second_row<T: Scalar>(
    state: (Grid<T>, Grid<T>),
    g: Grid<T>,
    learning_rate: T,
    i: int,
    n: nat,
) -> (Grid<T>, Grid<T>)
    decreases n,
{
    if n == 0 {
        state
    } else {
        second_unit(second_row(state, g, learning_rate, i, (n - 1) as nat), g, learning_rate, i, n - 1, g.cols)
    }
}

/// The pass through the second layer for the positions `0 .. n`: from the
/// hidden gradient and the weights before to those after. Gradient and
/// update are interleaved cell by cell.
pub open spec fn second_pass<T: Scalar>(
    state: (Grid<T>, Grid<T>),
    g: Grid<T>,
    learning_rate: T,
    n: nat,
) -> (Grid<T>, Grid<T>)
    decreases n,
{
    if n == 0 {
        state
    } else {
        second_row(second_pass(state, g, learning_rate, (n - 1) as nat), g, learning_rate, n - 1, state.0.cols)
    }
}

/// `b` less `learning_rate * xs[0]`, ..., less `learning_rate * xs[n - 1]`.
pub open spec fn drained<T: Scalar>(b: T, learning_rate: T, xs: Seq<T>, n: nat) -> T
    decreases n,
{
    if n == 0 {
        b
    } else {
        diff(drained(b, learning_rate, xs, (n - 1) as nat), prod(learning_rate, xs[n - 1]))
    }
}

/// The second bias after the pass: entry `k` loses `learning_rate` times
/// every entry of column `k` of `g`, from the top.
pub open spec fn drained_bias<T: Scalar>(b: Seq<T>, g: Grid<T>, learning_rate: T) -> Seq<T> {
    Seq::new(b.len(), |k: int| drained(b[k], learning_rate, g.col(k), g.rows))
}

/// One step of the pass through the first layer, at position `i`, input `j`
/// and hidden unit `k`. Where the unit's pre-activation in the forward pass
/// exceeded zero, the input's gradient takes in the unit's gradient times
/// `w1[j][k]`, and the weight then steps by the unit's gradient times
/// `read[i][j]`. Where it did not, the unit passes nothing.
pub open spec fn first_step<T: Scalar>(
    state: (Grid<T>, Grid<T>),
    hidden: Grid<T>,
    pre: Grid<T>,
    read: Grid<T>,
    learning_rate: T,
    i: int,
    j: int,
    k: int,
) -> (Grid<T>, Grid<T>) {
    let (input, w1) = state;
    let h = hidden.cells[i][k];
    if gt(pre.cells[i][k], zero::<T>()) {
        (
            input.set(i, j, sum(input.cells[i][j], prod(h, w1.cells[j][k]))),
            w1.set(j, k, diff(w1.cells[j][k], prod(prod(learning_rate, h), read.cells[i][j]))),
        )
    } else {
        state
    }
}

/// The steps for the hidden units `0 .. n` at position `i` and input `j`.
pub open spec fn first_unit<T: Scalar>(
    state: (Grid<T>, Grid<T>),
    hidden: Grid<T>,
    pre: Grid<T>,
    read: Grid<T>,
    learning_rate: T,
    i: int,
    j: int,
    n: nat,
) -> (Grid<T>, Grid<T>)
    decreases n,
{
    if n == 0 {
        state
    } else {
        first_step(
            first_unit(state, hidden, pre, read, learning_rate, i, j, (n - 1) as nat),
            hidden,
            pre,
            read,
            learning_rate,
            i,
            j,
            n - 1,
        )
    }
}

/// The steps for the inputs `0 .. n` at position `i`. After the steps of
/// input `j`, the first bias loses `learning_rate * hidden[i][j]` at `j`.
pub open spec fn first_row<T: Scalar>(
    state: (Grid<T>, Grid<T>, Seq<T>),
    hidden: Grid<T>,
    pre: Grid<T>,
    read: Grid<T>,
    learning_rate: T,
    i: int,
    n: nat,
) -> (Grid<T>, Grid<T>, Seq<T>)
    decreases n,
{
    if n == 0 {
        state
    } else {
        let before = first_row(state, hidden, pre, read, learning_rate, i, (n - 1) as nat);
        let after = first_unit(
            (before.0, before.1),
            hidden,
            pre,
            read,
            learning_rate,
            i,
            n - 1,
            hidden.cols,
        );
        (
            after.0,
            after.1,
            before.2.update(
                n - 1,
                diff(before.2[n - 1], prod(learning_rate, hidden.cells[i][n - 1])),
            ),
        )
    }
}

/// The pass through the first layer for the positions `0 .. n`: from the
/// input gradient, the weights and the bias before to those after.
pub open spec fn first_pass<T: Scalar>(
    state: (Grid<T>, Grid<T>, Seq<T>),
    hidden: Grid<T>,
    pre: Grid<T>,
    read: Grid<T>,
    learning_rate: T,
    n: nat,
) -> (Grid<T>, Grid<T>, Seq<T>)
    decreases n,
{
    if n == 0 {
        state
    } else {
        first_row(
            first_pass(state, hidden, pre, read, learning_rate, (n - 1) as nat),
            hidden,
            pre,
            read,
            learning_rate,
            n - 1,
            state.0.cols,
        )
    }
}

/// What one backward pass makes of the network: the gradient by the input
/// and the new `w1`, `b1`, `w2` and `b2`, in this order. `g` is the gradient
/// by the output, `read` is `g` as the first layer reads it, and `pre` is the
/// pre-activation of the hidden layer in the forward pass.
pub open spec fn backward_pass<T: Scalar>(
    w1: Grid<T>,
    b1: Seq<T>,
    w2: Grid<T>,
    b2: Seq<T>,
    g: Grid<T>,
    pre: Grid<T>,
    read: Grid<T>,
    learning_rate: T,
) -> (Grid<T>, Grid<T>, Seq<T>, Grid<T>, Seq<T>) {
    let second = second_pass(
        (Grid::filled(g.rows, w2.rows, zero::<T>()), w2),
        g,
        learning_rate,
        g.rows,
    );
    let first = first_pass(
        (Grid::filled(g.rows, w1.rows, zero::<T>()), w1, b1),
        second.0,
        pre,
        read,
        learning_rate,
        g.rows,
    );
    (first.0, first.1, first.2, second.1, drained_bias(b2, g, learning_rate))
}

/// A feed-forward network from `input_dim` to `output_dim` values through a
/// hidden layer four times as wide as the input.
pub struct FeedForward<T> {
    pub input_dim: usize,
    pub output_dim: usize,
    pub w1: Matrix<T>,
    pub w2: Matrix<T>,
    pub b1: Vec<T>,
    pub b2: Vec<T>,
}

/// A vector of `len` zeros.
fn zeros<T: Scalar>(len: usize) -> (v: Vec<T>)
    ensures
        v@.len() == len,
        deterministic::<T>() ==> v@ == Seq::new(len as nat, |i: int| zero::<T>()),
{
    let mut v: Vec<T> = Vec::new();
    let mut i: usize = 0;
    while i < len
        invariant
            i <= len,
            v@.len() == i,
            deterministic::<T>() ==> forall|k: int| 0 <= k < i ==> v@[k] == zero::<T>(),
        decreases len - i,
    {
        v.push(T::from_u64(0));
        i += 1;
    }
    proof {
        if deterministic::<T>() {
            assert(v@ =~= Seq::new(len as nat, |i: int| zero::<T>()));
        }
    }
    v
}

impl<T: Scalar> FeedForward<T> {
    /// The weights and biases have the shapes that the widths ask for.
    pub open spec fn wf(&self) -> bool {
        &&& self.input_dim * 4 <= usize::MAX
        &&& self.w1.wf()
        &&& self.w1@.rows == self.input_dim
        &&& self.w1@.cols == hidden_dim(self.input_dim as nat)
        &&& self.w2.wf()
        &&& self.w2@.rows == hidden_dim(self.input_dim as nat)
        &&& self.w2@.cols == self.output_dim
        &&& self.b1@.len() == hidden_dim(self.input_dim as nat)
        &&& self.b2@.len() == self.output_dim
    }

    /// The hidden layer before the ReLU: `input * w1 + b1`.
    pub open spec fn pre_activation_of(&self, input: Grid<T>) -> Grid<T> {
        affine(input, self.w1@, self.b1@)
    }

    /// What the network makes of `input`.
    pub open spec fn output(&self, input: Grid<T>) -> Grid<T> {
        feed_forward(input, self.w1@, self.b1@, self.w2@, self.b2@)
    }

    /// The gradient by the network's input, given the gradient `g` by its
    /// output, which the first layer reads as `read`, and the pre-activation
    /// `pre` of the forward pass.
    pub open spec fn passed_back(
        &self,
        g: Grid<T>,
        pre: Grid<T>,
        read: Grid<T>,
        learning_rate: T,
    ) -> Grid<T> {
        backward_pass(self.w1@, self.b1@, self.w2@, self.b2@, g, pre, read, learning_rate).0
    }

    /// `self` is `before` after one backward pass with the gradient `g`,
    /// which the first layer reads as `read`, and the pre-activation `pre` of
    /// the forward pass.
    pub open spec fn stepped(
        &self,
        before: Self,
        g: Grid<T>,
        pre: Grid<T>,
        read: Grid<T>,
        learning_rate: T,
    ) -> bool {
        let pass = backward_pass(
            before.w1@,
            before.b1@,
            before.w2@,
            before.b2@,
            g,
            pre,
            read,
            learning_rate,
        );
        &&& self.input_dim == before.input_dim
        &&& self.output_dim == before.output_dim
        &&& self.w1@ == pass.1
        &&& self.b1@ == pass.2
        &&& self.w2@ == pass.3
        &&& self.b2@ == pass.4
    }

    /// A network with all weights and biases zero.
    pub fn new(input_dim: usize, output_dim: usize) -> (layer: Self)
        requires
            input_dim * 4 <= usize::MAX,
            fits(input_dim as nat, hidden_dim(input_dim as nat)),
            fits(hidden_dim(input_dim as nat), output_dim as nat),
        ensures
            layer.wf(),
            layer.input_dim == input_dim,
            layer.output_dim == output_dim,
            deterministic::<T>() ==> {
                &&& layer.w1@ == Grid::filled(
                    input_dim as nat,
                    hidden_dim(input_dim as nat),
                    zero::<T>(),
                )
                &&& layer.w2@ == Grid::filled(
                    hidden_dim(input_dim as nat),
                    output_dim as nat,
                    zero::<T>(),
                )
                &&& layer.b1@ == Seq::new(hidden_dim(input_dim as nat), |i: int| zero::<T>())
                &&& layer.b2@ == Seq::new(output_dim as nat, |i: int| zero::<T>())
            },
    {
        let w1 = Matrix::new(input_dim, input_dim * 4);
        let w2 = Matrix::new(input_dim * 4, output_dim);
        let b1 = zeros(input_dim * 4);
        let b2 = zeros(output_dim);
        FeedForward { input_dim, output_dim, w1, w2, b1, b2 }
    }

    /// The hidden layer before the ReLU for `input`: `input * w1 + b1`.
    #[verifier::loop_isolation(false)]
    pub fn pre_activation(&self, input: &Matrix<T>) -> (pre: Matrix<T>)
        requires
            self.wf(),
            input.wf(),
            input@.cols == self.input_dim,
            fits(input@.rows, hidden_dim(self.input_dim as nat)),
        ensures
            pre.wf(),
            pre@.rows == input@.rows,
            pre@.cols == hidden_dim(self.input_dim as nat),
            deterministic::<T>() ==> pre@ == self.pre_activation_of(input@),
    {
        let rows = input.rows();
        let width = self.input_dim * 4;
        let ghost target = affine(input@, self.w1@, self.b1@);
        let mut pre = Matrix::new(rows, width);
        let mut i: usize = 0;
        while i < rows
            invariant
                pre.wf(),
                pre@.rows == rows,
                pre@.cols == width,
                i <= rows,
                deterministic::<T>() ==> forall|a: int, b: int|
                    0 <= a < i && 0 <= b < width ==> pre@.cells[a][b] == target.cells[a][b],
            decreases rows - i,
        {
            let mut j: usize = 0;
            while j < width
                invariant
                    pre.wf(),
                    pre@.rows == rows,
                    pre@.cols == width,
                    i < rows,
                    j <= width,
                    deterministic::<T>() ==> forall|a: int, b: int|
                        0 <= a < i && 0 <= b < width ==> pre@.cells[a][b] == target.cells[a][b],
                    deterministic::<T>() ==> forall|b: int|
                        0 <= b < j ==> pre@.cells[i as int][b] == target.cells[i as int][b],
                decreases width - j,
            {
                let mut total = self.b1[j];
                let mut k: usize = 0;
                while k < self.input_dim
                    invariant
                        k <= self.input_dim,
                        deterministic::<T>() ==> total == dot_from(
                            self.b1@[j as int],
                            input@.cells[i as int],
                            self.w1@.col(j as int),
                            k as nat,
                        ),
                    decreases self.input_dim - k,
                {
                    total = total.plus(input.get(i, k).times(self.w1.get(k, j)));
                    k += 1;
                }
                pre.set(i, j, total);
                j += 1;
            }
            i += 1;
        }
        proof {
            if deterministic::<T>() {
                lemma_grid_eq(pre@, target);
            }
        }
        pre
    }

    /// The network's output for `input`, one row per position.
    pub fn forward(&self, input: &Matrix<T>) -> (output: Matrix<T>)
        requires
            self.wf(),
            input.wf(),
            input@.cols == self.input_dim,
            fits(input@.rows, hidden_dim(self.input_dim as nat)),
            fits(input@.rows, self.output_dim as nat),
        ensures
            output.wf(),
            output@.rows == input@.rows,
            output@.cols == self.output_dim,
            deterministic::<T>() ==> output@ == self.output(input@),
    {
        let pre = self.pre_activation(input);
        self.forward_from(&pre)
    }

    /// The network's output from the pre-activation `pre` of its hidden
    /// layer: the ReLU of `pre`, times `w2`, plus `b2`.
    #[verifier::loop_isolation(false)]
    pub fn forward_from(&self, pre: &Matrix<T>) -> (output: Matrix<T>)
        requires
            self.wf(),
            pre.wf(),
            pre@.cols == hidden_dim(self.input_dim as nat),
            fits(pre@.rows, self.output_dim as nat),
        ensures
            output.wf(),
            output@.rows == pre@.rows,
            output@.cols == self.output_dim,
            deterministic::<T>() ==> output@ == affine(relu_cells(pre@), self.w2@, self.b2@),
    {
        let rows = pre.rows();
        let width = self.input_dim * 4;
        let ghost target_hidden = relu_cells(pre@);
        let mut hidden = Matrix::new(rows, width);
        let mut i: usize = 0;
        while i < rows
            invariant
                hidden.wf(),
                hidden@.rows == rows,
                hidden@.cols == width,
                i <= rows,
                deterministic::<T>() ==> forall|a: int, b: int|
                    0 <= a < i && 0 <= b < width ==> hidden@.cells[a][b]
                        == target_hidden.cells[a][b],
            decreases rows - i,
        {
            let mut j: usize = 0;
            while j < width
                invariant
                    hidden.wf(),
                    hidden@.rows == rows,
                    hidden@.cols == width,
                    i < rows,
                    j <= width,
                    deterministic::<T>() ==> forall|a: int, b: int|
                        0 <= a < i && 0 <= b < width ==> hidden@.cells[a][b]
                            == target_hidden.cells[a][b],
                    deterministic::<T>() ==> forall|b: int|
                        0 <= b < j ==> hidden@.cells[i as int][b] == target_hidden.cells[i as int][b],
                decreases width - j,
            {
                let value = pre.get(i, j);
                let floor = T::from_u64(0);
                if value.exceeds(floor) {
                    hidden.set(i, j, value);
                } else {
                    hidden.set(i, j, floor);
                }
                j += 1;
            }
            i += 1;
        }
        proof {
            if deterministic::<T>() {
                lemma_grid_eq(hidden@, target_hidden);
            }
        }
        let ghost target = affine(hidden@, self.w2@, self.b2@);
        let mut output = Matrix::new(rows, self.output_dim);
        let mut i: usize = 0;
        while i < rows
            invariant
                output.wf(),
                output@.rows == rows,
                output@.cols == self.output_dim,
                i <= rows,
                deterministic::<T>() ==> forall|a: int, b: int|
                    0 <= a < i && 0 <= b < self.output_dim ==> output@.cells[a][b]
                        == target.cells[a][b],
            decreases rows - i,
        {
            let mut j: usize = 0;
            while j < self.output_dim
                invariant
                    output.wf(),
                    output@.rows == rows,
                    output@.cols == self.output_dim,
                    i < rows,
                    j <= self.output_dim,
                    deterministic::<T>() ==> forall|a: int, b: int|
                        0 <= a < i && 0 <= b < self.output_dim ==> output@.cells[a][b]
                            == target.cells[a][b],
                    deterministic::<T>() ==> forall|b: int|
                        0 <= b < j ==> output@.cells[i as int][b] == target.cells[i as int][b],
                decreases self.output_dim - j,
            {
                let mut total = self.b2[j];
                let mut k: usize = 0;
                while k < width
                    invariant
                        k <= width,
                        deterministic::<T>() ==> total == dot_from(
                            self.b2@[j as int],
                            hidden@.cells[i as int],
                            self.w2@.col(j as int),
                            k as nat,
                        ),
                    decreases width - k,
                {
                    total = total.plus(hidden.get(i, k).times(self.w2.get(k, j)));
                    k += 1;
                }
                output.set(i, j, total);
                j += 1;
            }
            i += 1;
        }
        proof {
            if deterministic::<T>() {
                lemma_grid_eq(output@, target);
            }
        }
        output
    }

    /// One step of gradient descent on the weights and biases, given the
    /// gradient `gradients` of the loss by the network's output and the
    /// pre-activation `pre_activation` of the hidden layer in the forward
    /// pass. Returns the gradient by the network's input.
    ///
    /// A hidden unit passes gradient on to the first layer only where its
    /// pre-activation exceeded zero.
    ///
    /// The first layer reads `gradients` at the columns of the input. Where
    /// the input is wider than the output, such a read runs on in storage
    /// past the end of the row: `gradients` must hold a slot there.
    #[verifier::loop_isolation(false)]
    pub fn backward(
        &mut self,
        gradients: &Matrix<T>,
        pre_activation: &Matrix<T>,
        learning_rate: T,
    ) -> (input_gradients: Matrix<T>)
        requires
            old(self).wf(),
            gradients.wf(),
            gradients@.cols == old(self).output_dim,
            pre_activation.wf(),
            pre_activation@.rows == gradients@.rows,
            pre_activation@.cols == hidden_dim(old(self).input_dim as nat),
            fits(gradients@.rows, hidden_dim(old(self).input_dim as nat)),
            gradients@.rows > 0 ==> (gradients@.rows - 1) * old(self).output_dim
                + old(self).input_dim <= gradients.capacity(),
        ensures
            final(self).wf(),
            final(self).input_dim == old(self).input_dim,
            final(self).output_dim == old(self).output_dim,
            input_gradients.wf(),
            input_gradients@.rows == gradients@.rows,
            input_gradients@.cols == old(self).input_dim,
            deterministic::<T>() ==> (
                input_gradients@,
                final(self).w1@,
                final(self).b1@,
                final(self).w2@,
                final(self).b2@,
            ) == backward_pass(
                old(self).w1@,
                old(self).b1@,
                old(self).w2@,
                old(self).b2@,
                gradients@,
                pre_activation@,
                gradients.window(old(self).input_dim as nat),
                learning_rate,
            ),
    {
        let rows = gradients.rows();
        let width = self.input_dim * 4;
        let ghost g = gradients@;
        let ghost pre = pre_activation@;
        let ghost read = gradients.window(self.input_dim as nat);
        proof {
            assert(rows * self.input_dim <= rows * width) by (nonlinear_arith)
                requires
                    self.input_dim <= width,
                    0 <= rows,
            ;
        }
        let mut hidden_gradients: Matrix<T> = Matrix::new(rows, width);
        let mut input_gradients: Matrix<T> = Matrix::new(rows, self.input_dim);
        let ghost start2 = (hidden_gradients@, self.w2@);
        let ghost start1 = (input_gradients@, self.w1@, self.b1@);

        let mut i: usize = 0;
        while i < rows
            invariant
                self.wf(),
                self.input_dim == old(self).input_dim,
                self.output_dim == old(self).output_dim,
                self.w1 == old(self).w1,
                self.b1 == old(self).b1,
                self.b2 == old(self).b2,
                hidden_gradients.wf(),
                hidden_gradients@.rows == rows,
                hidden_gradients@.cols == width,
                i <= rows,
                deterministic::<T>() ==> (hidden_gradients@, self.w2@) == second_pass(
                    start2,
                    g,
                    learning_rate,
                    i as nat,
                ),
            decreases rows - i,
        {
            let ghost at_row = (hidden_gradients@, self.w2@);
            let mut j: usize = 0;
            while j < width
                invariant
                    self.wf(),
                    self.input_dim == old(self).input_dim,
                    self.output_dim == old(self).output_dim,
                    self.w1 == old(self).w1,
                    self.b1 == old(self).b1,
                    self.b2 == old(self).b2,
                    hidden_gradients.wf(),
                    hidden_gradients@.rows == rows,
                    hidden_gradients@.cols == width,
                    i < rows,
                    j <= width,
                    deterministic::<T>() ==> (hidden_gradients@, self.w2@) == second_row(
                        at_row,
                        g,
                        learning_rate,
                        i as int,
                        j as nat,
                    ),
                decreases width - j,
            {
                let ghost at_unit = (hidden_gradients@, self.w2@);
                let mut k: usize = 0;
                while k < self.output_dim
                    invariant
                        self.wf(),
                        self.input_dim == old(self).input_dim,
                        self.output_dim == old(self).output_dim,
                        self.w1 == old(self).w1,
                        self.b1 == old(self).b1,
                        self.b2 == old(self).b2,
                        hidden_gradients.wf(),
                        hidden_gradients@.rows == rows,
                        hidden_gradients@.cols == width,
                        k <= self.output_dim,
                        deterministic::<T>() ==> (hidden_gradients@, self.w2@) == second_unit(
                            at_unit,
                            g,
                            learning_rate,
                            i as int,
                            j as int,
                            k as nat,
                        ),
                    decreases self.output_dim - k,
                {
                    hidden_gradients.set(
                        i,
                        j,
                        hidden_gradients.get(i, j).plus(
                            gradients.get(i, k).times(self.w2.get(j, k)),
                        ),
                    );
                    self.w2.set(
                        j,
                        k,
                        self.w2.get(j, k).minus(
                            learning_rate.times(gradients.get(i, k)).times(
                                hidden_gradients.get(i, j),
                            ),
                        ),
                    );
                    k += 1;
                }
                j += 1;
            }
            i += 1;
        }
        let ghost hidden = hidden_gradients@;

        let ghost b2_before = self.b2@;
        let mut k: usize = 0;
        while k < self.output_dim
            invariant
                self.wf(),
                self.input_dim == old(self).input_dim,
                self.output_dim == old(self).output_dim,
                self.w1 == old(self).w1,
                self.b1 == old(self).b1,
                deterministic::<T>() ==> self.w2@ == second_pass(
                    start2,
                    g,
                    learning_rate,
                    rows as nat,
                ).1,
                k <= self.output_dim,
                forall|c: int| k <= c < self.output_dim ==> self.b2@[c] == b2_before[c],
                deterministic::<T>() ==> forall|c: int|
                    0 <= c < k ==> self.b2@[c] == drained(
                        b2_before[c],
                        learning_rate,
                        g.col(c),
                        rows as nat,
                    ),
            decreases self.output_dim - k,
        {
            let mut bias = self.b2[k];
            let mut i: usize = 0;
            while i < rows
                invariant
                    i <= rows,
                    deterministic::<T>() ==> bias == drained(
                        b2_before[k as int],
                        learning_rate,
                        g.col(k as int),
                        i as nat,
                    ),
                decreases rows - i,
            {
                bias = bias.minus(learning_rate.times(gradients.get(i, k)));
                i += 1;
            }
            self.b2.set(k, bias);
            k += 1;
        }
        proof {
            if deterministic::<T>() {
                assert(self.b2@ =~= drained_bias(b2_before, g, learning_rate));
            }
        }

        let mut i: usize = 0;
        while i < rows
            invariant
                self.wf(),
                self.input_dim == old(self).input_dim,
                self.output_dim == old(self).output_dim,
                deterministic::<T>() ==> self.w2@ == second_pass(
                    start2,
                    g,
                    learning_rate,
                    rows as nat,
                ).1,
                deterministic::<T>() ==> self.b2@ == drained_bias(b2_before, g, learning_rate),
                input_gradients.wf(),
                input_gradients@.rows == rows,
                input_gradients@.cols == self.input_dim,
                i <= rows,
                deterministic::<T>() ==> (input_gradients@, self.w1@, self.b1@) == first_pass(
                    start1,
                    hidden,
                    pre,
                    read,
                    learning_rate,
                    i as nat,
                ),
            decreases rows - i,
        {
            let ghost at_row = (input_gradients@, self.w1@, self.b1@);
            let mut j: usize = 0;
            while j < self.input_dim
                invariant
                    self.wf(),
                    self.input_dim == old(self).input_dim,
                    self.output_dim == old(self).output_dim,
                    deterministic::<T>() ==> self.w2@ == second_pass(
                        start2,
                        g,
                        learning_rate,
                        rows as nat,
                    ).1,
                    deterministic::<T>() ==> self.b2@ == drained_bias(b2_before, g, learning_rate),
                    input_gradients.wf(),
                    input_gradients@.rows == rows,
                    input_gradients@.cols == self.input_dim,
                    i < rows,
                    j <= self.input_dim,
                    deterministic::<T>() ==> (input_gradients@, self.w1@, self.b1@) == first_row(
                        at_row,
                        hidden,
                        pre,
                        read,
                        learning_rate,
                        i as int,
                        j as nat,
                    ),
                decreases self.input_dim - j,
            {
                let ghost at_unit = (input_gradients@, self.w1@);
                proof {
                    assert(i * self.output_dim <= (rows - 1) * self.output_dim) by (nonlinear_arith)
                        requires
                            i <= rows - 1,
                            0 <= self.output_dim,
                    ;
                }
                let seen = gradients.peek(i, j);
                let mut k: usize = 0;
                while k < width
                    invariant
                        self.wf(),
                        self.input_dim == old(self).input_dim,
                        self.output_dim == old(self).output_dim,
                        deterministic::<T>() ==> self.w2@ == second_pass(
                            start2,
                            g,
                            learning_rate,
                            rows as nat,
                        ).1,
                        deterministic::<T>() ==> self.b2@ == drained_bias(
                            b2_before,
                            g,
                            learning_rate,
                        ),
                        deterministic::<T>() ==> self.b1@ == first_row(
                            at_row,
                            hidden,
                            pre,
                            read,
                            learning_rate,
                            i as int,
                            j as nat,
                        ).2,
                        input_gradients.wf(),
                        input_gradients@.rows == rows,
                        input_gradients@.cols == self.input_dim,
                        k <= width,
                        deterministic::<T>() ==> (input_gradients@, self.w1@) == first_unit(
                            at_unit,
                            hidden,
                            pre,
                            read,
                            learning_rate,
                            i as int,
                            j as int,
                            k as nat,
                        ),
                    decreases width - k,
                {
                    let hidden_grad = hidden_gradients.get(i, k);
                    if pre_activation.get(i, k).exceeds(T::from_u64(0)) {
                        let input_grad = hidden_grad.times(self.w1.get(j, k));
                        input_gradients.set(i, j, input_gradients.get(i, j).plus(input_grad));
                        self.w1.set(
                            j,
                            k,
                            self.w1.get(j, k).minus(learning_rate.times(hidden_grad).times(seen)),
                        );
                    }
                    k += 1;
                }
                let bias = self.b1[j].minus(learning_rate.times(hidden_gradients.get(i, j)));
                self.b1.set(j, bias);
                j += 1;
            }
            i += 1;
        }
        input_gradients
    }
}

} // verus!
