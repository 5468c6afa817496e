//! Multi-head self-attention.

use crate::matrix::{fits, lemma_columns_whole, lemma_grid_eq, Grid, Matrix};
use crate::numeric::{softmax, softmax_of, sum_from};
use crate::scalar::{deterministic, dot_from, lift, prod, quot, root, zero, Scalar};
use vstd::prelude::*;

verus! {

/// The scaled scores of the queries `q` against the keys `k`: cell `(i, j)`
/// is row `i` of `q` times row `j` of `k`, over the square root of the width.
pub open spec fn scores<T: Scalar>(q: Grid<T>, k: Grid<T>) -> Grid<T> {
    Grid::tabulate(
        q.rows,
        k.rows,
        |i: int, j: int|
            quot(
                dot_from(zero::<T>(), q.cells[i], k.cells[j], q.cols),
                root(lift::<T>(q.cols as u64)),
            ),
    )
}

/// The softmax of every row of `s`.
pub open spec fn softmax_rows<T: Scalar>(s: Grid<T>) -> Grid<T> {
    Grid::tabulate(s.rows, s.cols, |i: int, j: int| softmax_of(s.cells[i])[j])
}

/// Scaled dot-product attention of one head: the softmax of the scores,
/// row by row, times the values.
pub open spec fn head_output<T: Scalar>(q: Grid<T>, k: Grid<T>, v: Grid<T>) -> Grid<T> {
    softmax_rows(scores(q, k)).product(v)
}

/// The output of head `h`, which sees the columns `h * width .. (h + 1) *
/// width` of the queries, keys and values.
pub open spec fn head<T: Scalar>(
    q: Grid<T>,
    k: Grid<T>,
    v: Grid<T>,
    h: int,
    width: nat,
) -> Grid<T> {
    head_output(
        q.columns(h * width, width),
        k.columns(h * width, width),
        v.columns(h * width, width),
    )
}

/// The outputs of all heads side by side: column `c` is column `c % width`
/// of head `c / width`.
pub open spec fn concat_heads<T: Scalar>(
    q: Grid<T>,
    k: Grid<T>,
    v: Grid<T>,
    heads: nat,
    width: nat,
) -> Grid<T> {
    Grid::tabulate(
        q.rows,
        heads * width,
        |i: int, c: int| head(q, k, v, c / (width as int), width).cells[i][c % (width as int)],
    )
}

/// Multi-head attention of `query` over `key` and `value`: the three are
/// projected, split into heads, attended head by head, put side by side
/// again and projected once more.
pub open spec fn attention<T: Scalar>(
    query: Grid<T>,
    key: Grid<T>,
    value: Grid<T>,
    w_q: Grid<T>,
    w_k: Grid<T>,
    w_v: Grid<T>,
    w_o: Grid<T>,
    heads: nat,
    width: nat,
) -> Grid<T> {
    concat_heads(
        query.product(w_q),
        key.product(w_k),
        value.product(w_v),
        heads,
        width,
    ).product(w_o)
}

/// The gradient of a projection `w` that reached the layer as `g` and the
/// projection's input as `d`: cell `(j, k)` adds up `g[i][k] * d[i][j]` over
/// the positions `i`.
pub open spec fn projection_gradient<T: Scalar>(g: Grid<T>, d: Grid<T>) -> Grid<T> {
    Grid::tabulate(
        d.cols,
        g.cols,
        |j: int, k: int| dot_from(zero::<T>(), g.col(k), d.col(j), g.rows),
    )
}

/// The gradient that the layer hands to the queries. Cell `(i, c)` adds up,
/// over the positions `j`, `d[i][c] * w_k[c][j]` over the square root of the
/// heads' width.
pub open spec fn query_gradient<T: Scalar>(d: Grid<T>, w_k: Grid<T>, width: nat) -> Grid<T> {
    Grid::tabulate(
        d.rows,
        d.cols,
        |i: int, c: int|
            sum_from(
                zero::<T>(),
                Seq::new(
                    d.rows,
                    |j: int|
                        quot(prod(d.cells[i][c], w_k.cells[c][j]), root(lift::<T>(width as u64))),
                ),
                d.rows,
            ),
    )
}

/// The gradient that the layer hands to the keys. Every row is the same:
/// cell `(j, c)` adds up, over the positions `i`, `d[i][c] * w_q[c][i]` over
/// the square root of the heads' width.
pub open spec fn key_gradient<T: Scalar>(d: Grid<T>, w_q: Grid<T>, width: nat) -> Grid<T> {
    Grid::tabulate(
        d.rows,
        d.cols,
        |j: int, c: int|
            sum_from(
                zero::<T>(),
                Seq::new(
                    d.rows,
                    |i: int|
                        quot(prod(d.cells[i][c], w_q.cells[c][i]), root(lift::<T>(width as u64))),
                ),
                d.rows,
            ),
    )
}

/// The gradient that the layer hands to the values. Every row is the same:
/// cell `(j, c)` adds up column `c` of `d`.
pub open spec fn value_gradient<T: Scalar>(d: Grid<T>) -> Grid<T> {
    Grid::tabulate(d.rows, d.cols, |j: int, c: int| sum_from(zero::<T>(), d.col(c), d.rows))
}

/// The weights `w` after one step of gradient descent along `gradient`.
pub open spec fn descended<T: Scalar>(w: Grid<T>, gradient: Grid<T>, learning_rate: T) -> Grid<T> {
    w.minus(gradient.scaled(learning_rate))
}

/// Column `h * width + j` is column `j` of head `h`.
pub proof fn lemma_head_column(h: int, j: int, width: int)
    requires
        0 <= h,
        0 <= j < width,
    ensures
        (h * width + j) / width == h,
        (h * width + j) % width == j,
{
    vstd::arithmetic::div_mod::lemma_fundamental_div_mod_converse(h * width + j, width, h, j);
}

/// With one head, the heads side by side are the scaled dot-product
/// attention of the whole queries over the whole keys and values.
pub proof fn lemma_single_head<T: Scalar>(q: Grid<T>, k: Grid<T>, v: Grid<T>)
    requires
        q.wf(),
        k.wf(),
        v.wf(),
        q.cols == k.cols,
        q.cols == v.cols,
    ensures
        concat_heads(q, k, v, 1, q.cols) == head_output(q, k, v),
{
    let width = q.cols;
    let joined = concat_heads(q, k, v, 1, width);
    let single = head_output(q, k, v);
    lemma_columns_whole(q);
    lemma_columns_whole(k);
    lemma_columns_whole(v);
    assert(0 * width == 0);
    assert(head(q, k, v, 0, width) == single);
    assert forall|i: int, c: int| 0 <= i < joined.rows && 0 <= c < joined.cols implies joined.cells[i][c]
        == single.cells[i][c] by {
        lemma_head_column(0, c, width as int);
    }
    lemma_grid_eq(joined, single);
}

/// With one head, attention is the standard single-head attention: the
/// projected queries attend over the projected keys and values, and the
/// result is projected once more.
pub proof fn lemma_single_head_attention<T: Scalar>(
    query: Grid<T>,
    key: Grid<T>,
    value: Grid<T>,
    w_q: Grid<T>,
    w_k: Grid<T>,
    w_v: Grid<T>,
    w_o: Grid<T>,
)
    requires
        w_q.cols == w_k.cols,
        w_q.cols == w_v.cols,
    ensures
        attention(query, key, value, w_q, w_k, w_v, w_o, 1, w_q.cols) == head_output(
            query.product(w_q),
            key.product(w_k),
            value.product(w_v),
        ).product(w_o),
{
    lemma_single_head(query.product(w_q), key.product(w_k), value.product(w_v));
}

/// The scores of `q` against `k`, scaled.
#[verifier::loop_isolation(false)]
pub fn attention_scores<T: Scalar>(q: &Matrix<T>, k: &Matrix<T>) -> (result: Matrix<T>)
    requires
        q.wf(),
        k.wf(),
        q@.cols == k@.cols,
        fits(q@.rows, k@.rows),
    ensures
        result.wf(),
        result@.rows == q@.rows,
        result@.cols == k@.rows,
        deterministic::<T>() ==> result@ == scores(q@, k@),
{
    let rows = q.rows();
    let cols = k.rows();
    let width = q.cols();
    let mut result = Matrix::new(rows, cols);
    let ghost target = scores(q@, k@);
    let mut i: usize = 0;
    while i < rows
        invariant
            result.wf(),
            result@.rows == rows,
            result@.cols == cols,
            i <= rows,
            deterministic::<T>() ==> forall|a: int, b: int|
                0 <= a < i && 0 <= b < cols ==> result@.cells[a][b] == target.cells[a][b],
        decreases rows - i,
    {
        let mut j: usize = 0;
        while j < cols
            invariant
                result.wf(),
                result@.rows == rows,
                result@.cols == cols,
                i < rows,
                j <= cols,
                deterministic::<T>() ==> forall|a: int, b: int|
                    0 <= a < i && 0 <= b < cols ==> result@.cells[a][b] == target.cells[a][b],
                deterministic::<T>() ==> forall|b: int|
                    0 <= b < j ==> result@.cells[i as int][b] == target.cells[i as int][b],
            decreases cols - j,
        {
            let mut score = T::from_u64(0);
            let mut m: usize = 0;
            while m < width
                invariant
                    m <= width,
                    deterministic::<T>() ==> score == dot_from(
                        zero::<T>(),
                        q@.cells[i as int],
                        k@.cells[j as int],
                        m as nat,
                    ),
                decreases width - m,
            {
                score = score.plus(q.get(i, m).times(k.get(j, m)));
                m += 1;
            }
            result.set(i, j, score.over(T::from_u64(width as u64).sqrt()));
            j += 1;
        }
        i += 1;
    }
    proof {
        if deterministic::<T>() {
            lemma_grid_eq(result@, target);
        }
    }
    result
}

/// Replaces every row of `m` by its softmax.
#[verifier::loop_isolation(false)]
pub fn softmax_each_row<T: Scalar>(m: &mut Matrix<T>)
    requires
        old(m).wf(),
    ensures
        final(m).wf(),
        final(m)@.same_shape(old(m)@),
        deterministic::<T>() ==> final(m)@ == softmax_rows(old(m)@),
{
    let rows = m.rows();
    let cols = m.cols();
    let ghost before = m@;
    let ghost target = softmax_rows(before);
    let mut i: usize = 0;
    while i < rows
        invariant
            m.wf(),
            m@.same_shape(before),
            i <= rows,
            forall|a: int| i <= a < rows ==> m@.cells[a] == before.cells[a],
            deterministic::<T>() ==> forall|a: int, b: int|
                0 <= a < i && 0 <= b < cols ==> m@.cells[a][b] == target.cells[a][b],
        decreases rows - i,
    {
        if cols > 0 {
            let mut row: Vec<T> = Vec::new();
            let mut j: usize = 0;
            while j < cols
                invariant
                    j <= cols,
                    row@.len() == j,
                    forall|b: int| 0 <= b < j ==> row@[b] == m@.cells[i as int][b],
                decreases cols - j,
            {
                row.push(m.get(i, j));
                j += 1;
            }
            assert(row@ =~= before.cells[i as int]);
            let softmax_row = softmax(row.as_slice());
            let mut j: usize = 0;
            while j < cols
                invariant
                    m.wf(),
                    m@.same_shape(before),
                    j <= cols,
                    forall|a: int| i < a < rows ==> m@.cells[a] == before.cells[a],
                    deterministic::<T>() ==> forall|a: int, b: int|
                        0 <= a < i && 0 <= b < cols ==> m@.cells[a][b] == target.cells[a][b],
                    deterministic::<T>() ==> forall|b: int|
                        0 <= b < j ==> m@.cells[i as int][b] == target.cells[i as int][b],
                decreases cols - j,
            {
                m.set(i, j, softmax_row[j]);
                j += 1;
            }
        }
        i += 1;
    }
    proof {
        if deterministic::<T>() {
            lemma_grid_eq(m@, target);
        }
    }
}

/// The gradient of a projection from what reached the layer, `g`, and the
/// projection's input, `d`.
#[verifier::loop_isolation(false)]
fn accumulate_projection_gradient<T: Scalar>(g: &Matrix<T>, d: &Matrix<T>) -> (result: Matrix<T>)
    requires
        g.wf(),
        d.wf(),
        g@.rows == d@.rows,
        fits(d@.cols, g@.cols),
    ensures
        result.wf(),
        result@.rows == d@.cols,
        result@.cols == g@.cols,
        deterministic::<T>() ==> result@ == projection_gradient(g@, d@),
{
    let rows = d.cols();
    let cols = g.cols();
    let seq_len = g.rows();
    let mut result = Matrix::new(rows, cols);
    let ghost target = projection_gradient(g@, d@);
    let mut j: usize = 0;
    while j < rows
        invariant
            result.wf(),
            result@.rows == rows,
            result@.cols == cols,
            j <= rows,
            deterministic::<T>() ==> forall|a: int, b: int|
                0 <= a < j && 0 <= b < cols ==> result@.cells[a][b] == target.cells[a][b],
        decreases rows - j,
    {
        let mut k: usize = 0;
        while k < cols
            invariant
                result.wf(),
                result@.rows == rows,
                result@.cols == cols,
                j < rows,
                k <= cols,
                deterministic::<T>() ==> forall|a: int, b: int|
                    0 <= a < j && 0 <= b < cols ==> result@.cells[a][b] == target.cells[a][b],
                deterministic::<T>() ==> forall|b: int|
                    0 <= b < k ==> result@.cells[j as int][b] == target.cells[j as int][b],
            decreases cols - k,
        {
            let mut total = T::from_u64(0);
            let mut i: usize = 0;
            while i < seq_len
                invariant
                    i <= seq_len,
                    deterministic::<T>() ==> total == dot_from(
                        zero::<T>(),
                        g@.col(k as int),
                        d@.col(j as int),
                        i as nat,
                    ),
                decreases seq_len - i,
            {
                total = total.plus(g.get(i, k).times(d.get(i, j)));
                i += 1;
            }
            result.set(j, k, total);
            k += 1;
        }
        j += 1;
    }
    proof {
        if deterministic::<T>() {
            lemma_grid_eq(result@, target);
        }
    }
    result
}

/// A multi-head attention layer with its four projections.
pub struct MultiHeadAttention<T> {
    pub heads: usize,
    pub dim: usize,
    pub head_dim: usize,
    pub w_q: Matrix<T>,
    pub w_k: Matrix<T>,
    pub w_v: Matrix<T>,
    pub w_o: Matrix<T>,
}

impl<T: Scalar> MultiHeadAttention<T> {
    /// The heads divide the width evenly, and each projection is `dim` by
    /// `dim`.
    pub open spec fn wf(&self) -> bool {
        &&& self.heads > 0
        &&& self.dim == self.heads * self.head_dim
        &&& self.w_q.wf() && self.w_q@.rows == self.dim && self.w_q@.cols == self.dim
        &&& self.w_k.wf() && self.w_k@.rows == self.dim && self.w_k@.cols == self.dim
        &&& self.w_v.wf() && self.w_v@.rows == self.dim && self.w_v@.cols == self.dim
        &&& self.w_o.wf() && self.w_o@.rows == self.dim && self.w_o@.cols == self.dim
    }

    /// What the layer makes of `query`, `key` and `value`.
    pub open spec fn output(&self, query: Grid<T>, key: Grid<T>, value: Grid<T>) -> Grid<T> {
        attention(
            query,
            key,
            value,
            self.w_q@,
            self.w_k@,
            self.w_v@,
            self.w_o@,
            self.heads as nat,
            self.head_dim as nat,
        )
    }

    /// The gradient by the layer's input, given the gradient `g` by its
    /// output: the sum of the gradients by queries, keys and values.
    pub open spec fn passed_back(&self, g: Grid<T>) -> Grid<T> {
        let d = g.product(self.w_o@.transpose());
        let width = self.head_dim as nat;
        query_gradient(d, self.w_k@, width).plus(key_gradient(d, self.w_q@, width)).plus(
            value_gradient(d),
        )
    }

    /// `self` is `before` after one backward pass with the gradient `g`.
    pub open spec fn stepped(&self, before: Self, g: Grid<T>, learning_rate: T) -> bool {
        let d = g.product(before.w_o@.transpose());
        let width = before.head_dim as nat;
        &&& self.heads == before.heads
        &&& self.dim == before.dim
        &&& self.head_dim == before.head_dim
        &&& self.w_o@ == descended(before.w_o@, projection_gradient(g, d), learning_rate)
        &&& self.w_q@ == descended(
            before.w_q@,
            query_gradient(d, before.w_k@, width).transpose().product(g),
            learning_rate,
        )
        &&& self.w_k@ == descended(
            before.w_k@,
            key_gradient(d, before.w_q@, width).transpose().product(g),
            learning_rate,
        )
        &&& self.w_v@ == descended(
            before.w_v@,
            value_gradient(d).transpose().product(g),
            learning_rate,
        )
    }

    /// A layer of `heads` heads over vectors of width `dim`, with all
    /// projections zero.
    pub fn new(heads: usize, dim: usize) -> (layer: Self)
        requires
            heads > 0,
            dim % heads == 0,
            fits(dim as nat, dim as nat),
        ensures
            layer.wf(),
            layer.heads == heads,
            layer.dim == dim,
            layer.head_dim == dim / heads,
            deterministic::<T>() ==> {
                &&& layer.w_q@ == Grid::filled(dim as nat, dim as nat, zero::<T>())
                &&& layer.w_k@ == Grid::filled(dim as nat, dim as nat, zero::<T>())
                &&& layer.w_v@ == Grid::filled(dim as nat, dim as nat, zero::<T>())
                &&& layer.w_o@ == Grid::filled(dim as nat, dim as nat, zero::<T>())
            },
    {
        let head_dim = dim / heads;
        proof {
            vstd::arithmetic::div_mod::lemma_fundamental_div_mod(dim as int, heads as int);
        }
        let w_q = Matrix::new(dim, dim);
        let w_k = Matrix::new(dim, dim);
        let w_v = Matrix::new(dim, dim);
        let w_o = Matrix::new(dim, dim);
        MultiHeadAttention { heads, dim, head_dim, w_q, w_k, w_v, w_o }
    }

    /// Attention of `query` over `key` and `value`, one row per position.
    /// With one head this is the standard scaled dot-product attention.
    #[verifier::loop_isolation(false)]
    pub fn forward(
        &self,
        query: &Matrix<T>,
        key: &Matrix<T>,
        value: &Matrix<T>,
    ) -> (output: Matrix<T>)
        requires
            self.wf(),
            query.wf(),
            key.wf(),
            value.wf(),
            query@.cols == self.dim,
            key@.same_shape(query@),
            value@.same_shape(query@),
            fits(query@.rows, query@.rows),
        ensures
            output.wf(),
            output@.rows == query@.rows,
            output@.cols == self.dim,
            deterministic::<T>() ==> output@ == attention(
                query@,
                key@,
                value@,
                self.w_q@,
                self.w_k@,
                self.w_v@,
                self.w_o@,
                self.heads as nat,
                self.head_dim as nat,
            ),
            deterministic::<T>() && self.heads == 1 ==> output@ == head_output(
                query@.product(self.w_q@),
                key@.product(self.w_k@),
                value@.product(self.w_v@),
            ).product(self.w_o@),
    {
        proof {
            if self.heads == 1 {
                assert(self.head_dim == self.dim) by (nonlinear_arith)
                    requires
                        self.dim == self.heads * self.head_dim,
                        self.heads == 1,
                ;
                lemma_single_head_attention(
                    query@,
                    key@,
                    value@,
                    self.w_q@,
                    self.w_k@,
                    self.w_v@,
                    self.w_o@,
                );
            }
        }
        let seq_len = query.rows();
        let width = self.head_dim;
        let q = query.dot(&self.w_q);
        let k = key.dot(&self.w_k);
        let v = value.dot(&self.w_v);
        let ghost target = concat_heads(q@, k@, v@, self.heads as nat, width as nat);
        let mut concat_output = Matrix::new(seq_len, self.dim);
        let mut h: usize = 0;
        while h < self.heads
            invariant
                concat_output.wf(),
                concat_output@.rows == seq_len,
                concat_output@.cols == self.dim,
                h <= self.heads,
                deterministic::<T>() ==> forall|a: int, c: int|
                    0 <= a < seq_len && 0 <= c < h * width ==> concat_output@.cells[a][c]
                        == target.cells[a][c],
            decreases self.heads - h,
        {
            proof {
                assert((h + 1) * width <= self.heads * width) by (nonlinear_arith)
                    requires
                        h + 1 <= self.heads,
                        0 <= width,
                ;
                assert((h + 1) * width == h * width + width) by (nonlinear_arith);
                assert(seq_len * width <= seq_len * self.dim) by (nonlinear_arith)
                    requires
                        width <= self.dim,
                        0 <= seq_len,
                ;
            }
            let start = h * width;
            let q_head = q.columns(start, width);
            let k_head = k.columns(start, width);
            let v_head = v.columns(start, width);
            let mut attention_scores = attention_scores(&q_head, &k_head);
            softmax_each_row(&mut attention_scores);
            let head_output = attention_scores.dot(&v_head);
            let mut i: usize = 0;
            while i < seq_len
                invariant
                    concat_output.wf(),
                    concat_output@.rows == seq_len,
                    concat_output@.cols == self.dim,
                    i <= seq_len,
                    deterministic::<T>() ==> forall|a: int, c: int|
                        0 <= a < seq_len && 0 <= c < h * width ==> concat_output@.cells[a][c]
                            == target.cells[a][c],
                    deterministic::<T>() ==> forall|a: int, c: int|
                        0 <= a < i && start <= c < start + width ==> concat_output@.cells[a][c]
                            == target.cells[a][c],
                decreases seq_len - i,
            {
                let mut j: usize = 0;
                while j < width
                    invariant
                        concat_output.wf(),
                        concat_output@.rows == seq_len,
                        concat_output@.cols == self.dim,
                        i < seq_len,
                        j <= width,
                        deterministic::<T>() ==> forall|a: int, c: int|
                            0 <= a < seq_len && 0 <= c < h * width ==> concat_output@.cells[a][c]
                                == target.cells[a][c],
                        deterministic::<T>() ==> forall|a: int, c: int|
                            0 <= a < i && start <= c < start + width
                                ==> concat_output@.cells[a][c] == target.cells[a][c],
                        deterministic::<T>() ==> forall|c: int|
                            start <= c < start + j ==> concat_output@.cells[i as int][c]
                                == target.cells[i as int][c],
                    decreases width - j,
                {
                    proof {
                        lemma_head_column(h as int, j as int, width as int);
                    }
                    concat_output.set(i, start + j, head_output.get(i, j));
                    j += 1;
                }
                i += 1;
            }
            h += 1;
        }
        proof {
            if deterministic::<T>() {
                lemma_grid_eq(concat_output@, target);
            }
        }
        concat_output.dot(&self.w_o)
    }

    /// One step of gradient descent on the four projections, given the
    /// gradient `gradients` of the loss by the layer's output. Returns the
    /// gradient by the layer's input.
    ///
    /// The chain through the softmax is cut short: a head's gradient goes
    /// straight against the rows of the key and query projections, scaled by
    /// the square root of the heads' width.
    #[verifier::loop_isolation(false)]
    pub fn backward(
        &mut self,
        gradients: &Matrix<T>,
        learning_rate: T,
    ) -> (input_gradients: Matrix<T>)
        requires
            old(self).wf(),
            gradients.wf(),
            gradients@.cols == old(self).dim,
            gradients@.rows <= old(self).dim,
        ensures
            final(self).wf(),
            final(self).heads == old(self).heads,
            final(self).dim == old(self).dim,
            final(self).head_dim == old(self).head_dim,
            input_gradients.wf(),
            input_gradients@.same_shape(gradients@),
            deterministic::<T>() ==> {
                let d = gradients@.product(old(self).w_o@.transpose());
                let width = old(self).head_dim as nat;
                let d_q = query_gradient(d, old(self).w_k@, width);
                let d_k = key_gradient(d, old(self).w_q@, width);
                let d_v = value_gradient(d);
                &&& final(self).w_o@ == descended(
                    old(self).w_o@,
                    projection_gradient(gradients@, d),
                    learning_rate,
                )
                &&& final(self).w_q@ == descended(
                    old(self).w_q@,
                    d_q.transpose().product(gradients@),
                    learning_rate,
                )
                &&& final(self).w_k@ == descended(
                    old(self).w_k@,
                    d_k.transpose().product(gradients@),
                    learning_rate,
                )
                &&& final(self).w_v@ == descended(
                    old(self).w_v@,
                    d_v.transpose().product(gradients@),
                    learning_rate,
                )
                &&& input_gradients@ == d_q.plus(d_k).plus(d_v)
            },
    {
        let seq_len = gradients.rows();
        let width = self.head_dim;
        let d_concat = gradients.dot(&self.w_o.transpose());
        let d_w_o = accumulate_projection_gradient(gradients, &d_concat);
        self.w_o = self.w_o.subtract(&d_w_o.mul_scalar(learning_rate));

        let ghost d = d_concat@;
        let ghost target_q = query_gradient(d, self.w_k@, width as nat);
        let ghost target_k = key_gradient(d, self.w_q@, width as nat);
        let ghost target_v = value_gradient(d);
        let mut d_q = Matrix::new(seq_len, self.dim);
        let mut d_k = Matrix::new(seq_len, self.dim);
        let mut d_v = Matrix::new(seq_len, self.dim);
        let mut h: usize = 0;
        while h < self.heads
            invariant
                d_q.wf() && d_q@.same_shape(gradients@),
                d_k.wf() && d_k@.same_shape(gradients@),
                d_v.wf() && d_v@.same_shape(gradients@),
                h <= self.heads,
                deterministic::<T>() ==> forall|a: int, c: int|
                    0 <= a < seq_len && 0 <= c < h * width ==> {
                        &&& d_q@.cells[a][c] == target_q.cells[a][c]
                        &&& d_k@.cells[a][c] == target_k.cells[a][c]
                        &&& d_v@.cells[a][c] == target_v.cells[a][c]
                    },
            decreases self.heads - h,
        {
            proof {
                assert((h + 1) * width <= self.heads * width) by (nonlinear_arith)
                    requires
                        h + 1 <= self.heads,
                        0 <= width,
                ;
                assert((h + 1) * width == h * width + width) by (nonlinear_arith);
            }
            let start = h * width;
            let mut i: usize = 0;
            while i < seq_len
                invariant
                    d_q.wf() && d_q@.same_shape(gradients@),
                    d_k.wf() && d_k@.same_shape(gradients@),
                    d_v.wf() && d_v@.same_shape(gradients@),
                    i <= seq_len,
                    deterministic::<T>() ==> forall|a: int, c: int|
                        0 <= a < seq_len && 0 <= c < start ==> {
                            &&& d_q@.cells[a][c] == target_q.cells[a][c]
                            &&& d_k@.cells[a][c] == target_k.cells[a][c]
                            &&& d_v@.cells[a][c] == target_v.cells[a][c]
                        },
                    deterministic::<T>() ==> forall|a: int, c: int|
                        0 <= a < i && start <= c < start + width ==> {
                            &&& d_q@.cells[a][c] == target_q.cells[a][c]
                            &&& d_k@.cells[a][c] == target_k.cells[a][c]
                            &&& d_v@.cells[a][c] == target_v.cells[a][c]
                        },
                decreases seq_len - i,
            {
                let mut k: usize = 0;
                while k < width
                    invariant
                        d_q.wf() && d_q@.same_shape(gradients@),
                        d_k.wf() && d_k@.same_shape(gradients@),
                        d_v.wf() && d_v@.same_shape(gradients@),
                        i < seq_len,
                        k <= width,
                        deterministic::<T>() ==> forall|a: int, c: int|
                            0 <= a < seq_len && 0 <= c < start ==> {
                                &&& d_q@.cells[a][c] == target_q.cells[a][c]
                                &&& d_k@.cells[a][c] == target_k.cells[a][c]
                                &&& d_v@.cells[a][c] == target_v.cells[a][c]
                            },
                        deterministic::<T>() ==> forall|a: int, c: int|
                            0 <= a < i && start <= c < start + width ==> {
                                &&& d_q@.cells[a][c] == target_q.cells[a][c]
                                &&& d_k@.cells[a][c] == target_k.cells[a][c]
                                &&& d_v@.cells[a][c] == target_v.cells[a][c]
                            },
                        deterministic::<T>() ==> forall|c: int|
                            start <= c < start + k ==> {
                                &&& d_q@.cells[i as int][c] == target_q.cells[i as int][c]
                                &&& d_k@.cells[i as int][c] == target_k.cells[i as int][c]
                                &&& d_v@.cells[i as int][c] == target_v.cells[i as int][c]
                            },
                    decreases width - k,
                {
                    let column = start + k;
                    let scale = T::from_u64(width as u64).sqrt();
                    let ghost q_terms = Seq::new(
                        seq_len as nat,
                        |j: int|
                            quot(
                                prod(d.cells[i as int][column as int], self.w_k@.cells[column as int][j]),
                                root(lift::<T>(width as u64)),
                            ),
                    );
                    let ghost k_terms = Seq::new(
                        seq_len as nat,
                        |a: int|
                            quot(
                                prod(d.cells[a][column as int], self.w_q@.cells[column as int][a]),
                                root(lift::<T>(width as u64)),
                            ),
                    );
                    let mut dq = T::from_u64(0);
                    let mut dk = T::from_u64(0);
                    let mut dv = T::from_u64(0);
                    let mut j: usize = 0;
                    while j < seq_len
                        invariant
                            j <= seq_len,
                            deterministic::<T>() ==> dq == sum_from(zero::<T>(), q_terms, j as nat),
                            deterministic::<T>() ==> dk == sum_from(zero::<T>(), k_terms, j as nat),
                            deterministic::<T>() ==> dv == sum_from(
                                zero::<T>(),
                                d.col(column as int),
                                j as nat,
                            ),
                        decreases seq_len - j,
                    {
                        dq = dq.plus(
                            d_concat.get(i, column).times(self.w_k.get(column, j)).over(scale),
                        );
                        dk = dk.plus(
                            d_concat.get(j, column).times(self.w_q.get(column, j)).over(scale),
                        );
                        dv = dv.plus(d_concat.get(j, column));
                        j += 1;
                    }
                    d_q.set(i, column, dq);
                    d_k.set(i, column, dk);
                    d_v.set(i, column, dv);
                    k += 1;
                }
                i += 1;
            }
            h += 1;
        }
        proof {
            if deterministic::<T>() {
                lemma_grid_eq(d_q@, target_q);
                lemma_grid_eq(d_k@, target_k);
                lemma_grid_eq(d_v@, target_v);
            }
        }
        let d_w_q = d_q.transpose().dot(gradients);
        let d_w_k = d_k.transpose().dot(gradients);
        let d_w_v = d_v.transpose().dot(gradients);

        self.w_q = self.w_q.subtract(&d_w_q.mul_scalar(learning_rate));
        self.w_k = self.w_k.subtract(&d_w_k.mul_scalar(learning_rate));
        self.w_v = self.w_v.subtract(&d_w_v.mul_scalar(learning_rate));

        d_q.add(&d_k).add(&d_v)
    }
}

} // verus!
