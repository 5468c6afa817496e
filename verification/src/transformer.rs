//! The whole model: embedding, positional signal, a stack of blocks and the
//! projection onto the vocabulary.

use crate::block::TransformerBlock;
use crate::embedding::{encoding, lcg_table, looked_up, positional_encoding, Embedding};
use crate::feed_forward::{hidden_dim, FeedForward};
use crate::matrix::{can_store, fits, lemma_grid_eq, slots_for, slots_needed, Grid, Matrix};
use crate::numeric::{argmax, argmax_of, softmax, softmax_of};
use crate::rng::{drawn_weights, initialize_weights, lemma_state_after_add, state_after, Rng};
use crate::scalar::{deterministic, diff, ln_of, one, prod, zero, Scalar};
use crate::tokenizer::Tokenizer;
use vstd::prelude::*;

verus! {

/// The seed of the stream that a new model draws the weights of its blocks
/// and of its output projection from.
pub const WEIGHT_SEED: u64 = 12345;

/// The number of draws that a matrix of this shape takes: one for each slot
/// of its storage.
pub open spec fn draws(rows: nat, cols: nat) -> nat {
    slots_for(rows, cols)
}

/// The number of draws that one block takes: four projections and the two
/// weights of its feed-forward network.
pub open spec fn block_draws(dim: nat) -> nat {
    4 * draws(dim, dim) + draws(dim, hidden_dim(dim)) + draws(hidden_dim(dim), dim)
}

/// The weights of a matrix that is filled after `offset` draws were taken
/// from the model's stream.
pub open spec fn drawn_at<T: Scalar>(rows: nat, cols: nat, offset: nat) -> Grid<T> {
    drawn_weights::<T>(rows, cols, state_after(WEIGHT_SEED, offset))
}

/// The weights of `block` are those drawn after `offset` draws, in the
/// order query, key, value and output projection, then the two weights of
/// the feed-forward network.
pub open spec fn block_drawn_at<T: Scalar>(block: TransformerBlock<T>, offset: nat) -> bool {
    let dim = block.dim();
    let square = draws(dim, dim);
    &&& block.attention.w_q@ == drawn_at::<T>(dim, dim, offset)
    &&& block.attention.w_k@ == drawn_at::<T>(dim, dim, offset + square)
    &&& block.attention.w_v@ == drawn_at::<T>(dim, dim, offset + 2 * square)
    &&& block.attention.w_o@ == drawn_at::<T>(dim, dim, offset + 3 * square)
    &&& block.feed_forward.w1@ == drawn_at::<T>(dim, hidden_dim(dim), offset + 4 * square)
    &&& block.feed_forward.w2@ == drawn_at::<T>(
        hidden_dim(dim),
        dim,
        offset + 4 * square + draws(dim, hidden_dim(dim)),
    )
}

/// The token that position `i` is to predict: `target[i]`, and token 0
/// where `target` is too short.
pub open spec fn target_at(target: Seq<usize>, i: int) -> int {
    if i < target.len() {
        target[i] as int
    } else {
        0
    }
}

/// The gradient of the cross-entropy loss by the logits: in every row, the
/// softmax of the row less one at the target.
pub open spec fn loss_gradient<T: Scalar>(logits: Grid<T>, target: Seq<usize>) -> Grid<T> {
    Grid::tabulate(
        logits.rows,
        logits.cols,
        |i: int, j: int|
            diff(
                softmax_of(logits.cells[i])[j],
                if j == target_at(target, i) {
                    one::<T>()
                } else {
                    zero::<T>()
                },
            ),
    )
}

/// The cross-entropy loss of the first `n` positions: zero, less the
/// logarithm of each target's probability. A position whose target is no
/// token of the vocabulary adds nothing.
pub open spec fn cross_entropy<T: Scalar>(logits: Grid<T>, target: Seq<usize>, n: nat) -> T
    decreases n,
{
    if n == 0 {
        zero::<T>()
    } else {
        let before = cross_entropy(logits, target, (n - 1) as nat);
        let t = target_at(target, n - 1);
        if t < logits.cols {
            diff(before, ln_of(softmax_of(logits.cells[n - 1])[t]))
        } else {
            before
        }
    }
}

/// A freshly built gradient `g` as a layer reads it that takes its rows to
/// be `width` wide: a row runs on into the next one, and past the last cell
/// there are zeros.
pub open spec fn read_as<T: Scalar>(g: Grid<T>, width: nat) -> Grid<T> {
    Grid::tabulate(
        g.rows,
        width,
        |i: int, j: int|
            {
                let k = i * g.cols + j;
                if k < g.rows * g.cols {
                    g.cells[k / (g.cols as int)][k % (g.cols as int)]
                } else {
                    zero::<T>()
                }
            },
    )
}

/// `table` with row `row` one step down the gradient `g_row`.
pub open spec fn row_stepped<T: Scalar>(
    table: Grid<T>,
    row: int,
    g_row: Seq<T>,
    learning_rate: T,
) -> Grid<T> {
    Grid {
        cells: table.cells.update(
            row,
            Seq::new(table.cols, |j: int| diff(table.cells[row][j], prod(learning_rate, g_row[j]))),
        ),
        ..table
    }
}

/// The embedding table after the positions `0 .. n` have stepped the rows of
/// their tokens, one after the other, each down its row of `g`. A position
/// whose token the vocabulary does not hold steps nothing.
pub open spec fn table_stepped<T: Scalar>(
    table: Grid<T>,
    tokens: Seq<usize>,
    g: Grid<T>,
    learning_rate: T,
    n: nat,
) -> Grid<T>
    decreases n,
{
    if n == 0 {
        table
    } else {
        let before = table_stepped(table, tokens, g, learning_rate, (n - 1) as nat);
        if tokens[n - 1] < table.rows {
            row_stepped(before, tokens[n - 1] as int, g.cells[n - 1], learning_rate)
        } else {
            before
        }
    }
}

/// A decoder-style transformer over token ids.
pub struct Transformer<T> {
    pub embedding: Embedding<T>,
    pub blocks: Vec<TransformerBlock<T>>,
    pub output_layer: FeedForward<T>,
}

/// Fills `matrix` from `rng`, which has taken `offset` draws so far.
fn draw_weights<T: Scalar>(matrix: &mut Matrix<T>, rng: &mut Rng, Ghost(offset): Ghost<nat>)
    requires
        old(matrix).wf(),
        old(rng)@ == state_after(WEIGHT_SEED, offset),
    ensures
        final(matrix).wf(),
        final(matrix)@.same_shape(old(matrix)@),
        final(rng)@ == state_after(
            WEIGHT_SEED,
            offset + draws(old(matrix)@.rows, old(matrix)@.cols),
        ),
        deterministic::<T>() ==> final(matrix)@ == drawn_at::<T>(
            old(matrix)@.rows,
            old(matrix)@.cols,
            offset,
        ),
{
    proof {
        matrix.lemma_capacity();
        lemma_state_after_add(WEIGHT_SEED, offset, matrix.capacity());
    }
    initialize_weights(matrix, rng);
}

impl<T: Scalar> Transformer<T> {
    /// The number of tokens that the model knows.
    pub open spec fn vocab_size(&self) -> nat {
        self.embedding.vocab_size as nat
    }

    /// The width of the vectors that run through the model.
    pub open spec fn dim(&self) -> nat {
        self.embedding.embedding_dim as nat
    }

    /// Embedding, blocks and output projection are well formed and fit one
    /// another.
    pub open spec fn wf(&self) -> bool {
        &&& self.embedding.wf()
        &&& forall|b: int|
            0 <= b < self.blocks@.len() ==> (#[trigger] self.blocks@[b]).wf()
                && self.blocks@[b].dim() == self.dim()
        &&& self.output_layer.wf()
        &&& self.output_layer.input_dim == self.dim()
        &&& self.output_layer.output_dim == self.vocab_size()
    }

    /// A window of `len` tokens is one that the model has room for.
    pub open spec fn takes(&self, len: nat) -> bool {
        &&& fits(len, self.dim())
        &&& fits(len, len)
        &&& fits(len, hidden_dim(self.dim()))
        &&& fits(len, self.vocab_size())
    }

    /// The input of the first block: the rows of the table for `tokens`,
    /// plus the positional signal.
    pub open spec fn embedded(&self, tokens: Seq<usize>) -> Grid<T> {
        looked_up(self.embedding.embeddings@, tokens).plus(
            encoding::<T>(tokens.len(), self.dim()),
        )
    }

    /// What the first `n` blocks make of `x`.
    pub open spec fn through_blocks(&self, x: Grid<T>, n: nat) -> Grid<T>
        decreases n,
    {
        if n == 0 {
            x
        } else {
            self.blocks@[n - 1].output(self.through_blocks(x, (n - 1) as nat))
        }
    }

    /// The logits for `tokens`: one row per position, one column per token
    /// of the vocabulary.
    pub open spec fn logits(&self, tokens: Seq<usize>) -> Grid<T> {
        self.output_layer.output(self.through_blocks(self.embedded(tokens), self.blocks@.len()))
    }

    /// The pre-activation of the output projection's hidden layer for the
    /// input `start` of the first block.
    pub open spec fn output_pre_activation(&self, start: Grid<T>) -> Grid<T> {
        self.output_layer.pre_activation_of(self.through_blocks(start, self.blocks@.len()))
    }

    /// The pre-activation of the feed-forward network of block `b` for the
    /// input `start` of the first block.
    pub open spec fn block_pre_activation(&self, start: Grid<T>, b: int) -> Grid<T> {
        self.blocks@[b].pre_activation_of(self.through_blocks(start, b as nat))
    }

    /// The gradient `top` by the output of the last block after it has run
    /// back through the last `n` blocks, where `start` was the input of the
    /// first block in the forward pass.
    pub open spec fn gradient_above(
        &self,
        top: Grid<T>,
        start: Grid<T>,
        learning_rate: T,
        n: nat,
    ) -> Grid<T>
        decreases n,
    {
        if n == 0 {
            top
        } else {
            let b = self.blocks@.len() - n;
            self.blocks@[b].passed_back(
                self.gradient_above(top, start, learning_rate, (n - 1) as nat),
                self.block_pre_activation(start, b),
                learning_rate,
            )
        }
    }

    /// A model of these sizes can be built: the heads divide the width
    /// evenly, and every weight can be stored.
    pub open spec fn builds(vocab_size: nat, embedding_dim: nat, heads: nat) -> bool {
        &&& heads > 0
        &&& embedding_dim % heads == 0
        &&& embedding_dim * 4 <= usize::MAX
        &&& fits(hidden_dim(embedding_dim), embedding_dim)
        &&& fits(hidden_dim(embedding_dim), vocab_size)
        &&& fits(vocab_size, embedding_dim)
    }

    /// The model can train on a window of `len` tokens: it has room for the
    /// window, knows a token, is at least as wide as the window is long if
    /// it has a block, and the gradient by the logits has storage for the
    /// reads of the output projection.
    pub open spec fn trains_on(&self, len: nat) -> bool {
        &&& self.takes(len)
        &&& self.vocab_size() > 0
        &&& self.blocks@.len() > 0 ==> len <= self.dim()
        &&& len > 0 ==> (len - 1) * self.vocab_size() + self.dim() <= slots_for(
            len,
            self.vocab_size(),
        )
    }

    /// The model is as `Transformer::new` builds it with `heads` heads: the
    /// embedding table is filled from its own generator, the weights of the
    /// blocks and of the output projection are drawn from the stream in this
    /// order, and all else is neutral.
    pub open spec fn fresh(&self, heads: nat) -> bool {
        let dim = self.dim();
        let count = self.blocks@.len();
        let last = count * block_draws(dim);
        &&& self.embedding.embeddings@ == lcg_table::<T>(self.vocab_size(), dim)
        &&& forall|b: int|
            0 <= b < count ==> block_drawn_at(
                #[trigger] self.blocks@[b],
                (b * block_draws(dim)) as nat,
            ) && self.blocks@[b].neutral() && self.blocks@[b].attention.heads == heads
        &&& self.output_layer.w1@ == drawn_at::<T>(dim, hidden_dim(dim), last)
        &&& self.output_layer.w2@ == drawn_at::<T>(
            hidden_dim(dim),
            self.vocab_size(),
            last + draws(dim, hidden_dim(dim)),
        )
        &&& self.output_layer.b1@ == Seq::new(hidden_dim(dim), |i: int| zero::<T>())
        &&& self.output_layer.b2@ == Seq::new(self.vocab_size(), |i: int| zero::<T>())
    }

    /// Two blocks with the same weights make the same of every input.
    proof fn lemma_same_blocks(&self, other: &Self, heads: nat, x: Grid<T>, n: nat)
        requires
            self.wf(),
            other.wf(),
            heads > 0,
            self.fresh(heads),
            other.fresh(heads),
            self.vocab_size() == other.vocab_size(),
            self.dim() == other.dim(),
            self.blocks@.len() == other.blocks@.len(),
            n <= self.blocks@.len(),
        ensures
            self.through_blocks(x, n) == other.through_blocks(x, n),
        decreases n,
    {
        if n > 0 {
            self.lemma_same_blocks(other, heads, x, (n - 1) as nat);
            let a = self.blocks@[n - 1];
            let b = other.blocks@[n - 1];
            assert(a.wf() && b.wf());
            assert(a.attention.head_dim == b.attention.head_dim) by (nonlinear_arith)
                requires
                    a.attention.dim == a.attention.heads * a.attention.head_dim,
                    b.attention.dim == b.attention.heads * b.attention.head_dim,
                    a.attention.dim == b.attention.dim,
                    a.attention.heads == b.attention.heads,
                    a.attention.heads > 0,
            ;
            let y = self.through_blocks(x, (n - 1) as nat);
            assert(a.output(y) == b.output(y));
        }
    }

    /// Reproducibility: two models built alike give the same logits for the
    /// same tokens.
    pub proof fn lemma_reproducible(&self, other: &Self, heads: nat, tokens: Seq<usize>)
        requires
            self.wf(),
            other.wf(),
            heads > 0,
            self.fresh(heads),
            other.fresh(heads),
            self.vocab_size() == other.vocab_size(),
            self.dim() == other.dim(),
            self.blocks@.len() == other.blocks@.len(),
        ensures
            self.logits(tokens) == other.logits(tokens),
    {
        self.lemma_same_blocks(other, heads, self.embedded(tokens), self.blocks@.len());
    }

    /// Whether a model of these sizes can be built.
    pub fn can_build(vocab_size: usize, embedding_dim: usize, heads: usize) -> (yes: bool)
        ensures
            yes == Self::builds(vocab_size as nat, embedding_dim as nat, heads as nat),
    {
        if heads == 0 || embedding_dim % heads != 0 {
            return false;
        }
        match embedding_dim.checked_mul(4) {
            Some(hidden) => can_store(hidden, embedding_dim) && can_store(hidden, vocab_size)
                && can_store(vocab_size, embedding_dim),
            None => false,
        }
    }

    /// Whether the model has room for a window of `len` tokens.
    pub fn can_take(&self, len: usize) -> (yes: bool)
        requires
            self.wf(),
        ensures
            yes == self.takes(len as nat),
    {
        let dim = self.embedding.embedding_dim;
        can_store(len, dim) && can_store(len, len) && can_store(len, dim * 4) && can_store(
            len,
            self.embedding.vocab_size,
        )
    }

    /// Whether the model can train on a window of `len` tokens.
    pub fn can_train(&self, len: usize) -> (yes: bool)
        requires
            self.wf(),
        ensures
            yes == self.trains_on(len as nat),
    {
        let dim = self.embedding.embedding_dim;
        let vocab_size = self.embedding.vocab_size;
        if !self.can_take(len) || vocab_size == 0 {
            return false;
        }
        if self.blocks.len() > 0 && len > dim {
            return false;
        }
        if len == 0 {
            return true;
        }
        proof {
            assert((len - 1) * vocab_size <= len * vocab_size) by (nonlinear_arith)
                requires
                    0 < len,
                    0 <= vocab_size,
            ;
            assert(0 <= (len - 1) * vocab_size) by (nonlinear_arith)
                requires
                    0 < len,
                    0 <= vocab_size,
            ;
        }
        let slots = slots_needed(len, vocab_size);
        let before_last = (len - 1) * vocab_size;
        dim <= slots - before_last
    }

    /// A model of `num_blocks` blocks of `heads` heads each, over a
    /// vocabulary of `vocab_size` tokens and vectors of width
    /// `embedding_dim`. The embedding table is filled from its own
    /// generator. All other weights come from one stream with a fixed seed,
    /// in the order blocks, output projection.
    #[verifier::loop_isolation(false)]
    pub fn new(
        vocab_size: usize,
        embedding_dim: usize,
        num_blocks: usize,
        heads: usize,
    ) -> (model: Self)
        requires
            Self::builds(vocab_size as nat, embedding_dim as nat, heads as nat),
        ensures
            model.wf(),
            model.vocab_size() == vocab_size,
            model.dim() == embedding_dim,
            model.blocks@.len() == num_blocks,
            forall|b: int|
                0 <= b < num_blocks ==> (#[trigger] model.blocks@[b]).attention.heads == heads,
            deterministic::<T>() ==> model.fresh(heads as nat),
    {
        let ghost dim = embedding_dim as nat;
        let ghost per_block = block_draws(dim);
        let mut rng = Rng::new(WEIGHT_SEED);
        let embedding = Embedding::new(vocab_size, embedding_dim);

        let mut blocks: Vec<TransformerBlock<T>> = Vec::new();
        let mut i: usize = 0;
        while i < num_blocks
            invariant
                i <= num_blocks,
                blocks@.len() == i,
                rng@ == state_after(WEIGHT_SEED, (i * per_block) as nat),
                forall|b: int|
                    0 <= b < i ==> (#[trigger] blocks@[b]).wf() && blocks@[b].dim() == dim
                        && blocks@[b].attention.heads == heads,
                deterministic::<T>() ==> forall|b: int|
                    0 <= b < i ==> block_drawn_at(#[trigger] blocks@[b], (b * per_block) as nat)
                        && blocks@[b].neutral(),
            decreases num_blocks - i,
        {
            let ghost offset = (i * per_block) as nat;
            let ghost square = draws(dim, dim);
            proof {
                assert(i * per_block >= 0) by (nonlinear_arith)
                    requires
                        i >= 0,
                        per_block >= 0,
                ;
                assert((i + 1) * per_block == i * per_block + per_block) by (nonlinear_arith);
            }
            let mut block = TransformerBlock::new(heads, embedding_dim);
            draw_weights(&mut block.attention.w_q, &mut rng, Ghost(offset));
            draw_weights(&mut block.attention.w_k, &mut rng, Ghost(offset + square));
            draw_weights(&mut block.attention.w_v, &mut rng, Ghost(offset + 2 * square));
            draw_weights(&mut block.attention.w_o, &mut rng, Ghost(offset + 3 * square));
            draw_weights(&mut block.feed_forward.w1, &mut rng, Ghost(offset + 4 * square));
            draw_weights(
                &mut block.feed_forward.w2,
                &mut rng,
                Ghost(offset + 4 * square + draws(dim, hidden_dim(dim))),
            );
            let ghost finished = block;
            blocks.push(block);
            proof {
                assert(blocks@[i as int] == finished);
            }
            i += 1;
        }

        let ghost last = (num_blocks * per_block) as nat;
        proof {
            assert(num_blocks * per_block >= 0) by (nonlinear_arith)
                requires
                    num_blocks >= 0,
                    per_block >= 0,
            ;
            assert(embedding_dim * (embedding_dim * 4) == (embedding_dim * 4) * embedding_dim)
                by (nonlinear_arith);
        }
        let mut output_layer = FeedForward::new(embedding_dim, vocab_size);
        draw_weights(&mut output_layer.w1, &mut rng, Ghost(last));
        draw_weights(&mut output_layer.w2, &mut rng, Ghost(last + draws(dim, hidden_dim(dim))));

        Transformer { embedding, blocks, output_layer }
    }

    /// The forward pass with what the backward pass needs of it: the
    /// pre-activations of the blocks' feed-forward networks, that of the
    /// output projection, and the logits, in this order.
    #[verifier::loop_isolation(false)]
    fn forward_trace(&self, input: &[usize]) -> (result: (Vec<Matrix<T>>, Matrix<T>, Matrix<T>))
        requires
            self.wf(),
            self.takes(input@.len()),
        ensures
            result.0@.len() == self.blocks@.len(),
            forall|b: int|
                0 <= b < self.blocks@.len() ==> (#[trigger] result.0@[b]).wf()
                    && result.0@[b]@.rows == input@.len() && result.0@[b]@.cols == hidden_dim(
                    self.dim(),
                ),
            result.1.wf(),
            result.1@.rows == input@.len(),
            result.1@.cols == hidden_dim(self.dim()),
            result.2.wf(),
            result.2@.rows == input@.len(),
            result.2@.cols == self.vocab_size(),
            deterministic::<T>() ==> forall|b: int|
                0 <= b < self.blocks@.len() ==> (#[trigger] result.0@[b])@
                    == self.block_pre_activation(self.embedded(input@), b),
            deterministic::<T>() ==> result.1@ == self.output_pre_activation(
                self.embedded(input@),
            ),
            deterministic::<T>() ==> result.2@ == self.logits(input@),
    {
        let embedded = self.embedding.forward(vstd::slice::slice_to_vec(input));
        let mut x = embedded.add(&positional_encoding(embedded.rows(), embedded.cols()));
        let ghost start = x@;
        let mut pre_activations: Vec<Matrix<T>> = Vec::new();
        let mut i: usize = 0;
        while i < self.blocks.len()
            invariant
                i <= self.blocks@.len(),
                x.wf(),
                x@.rows == input@.len(),
                x@.cols == self.dim(),
                pre_activations@.len() == i,
                forall|b: int|
                    0 <= b < i ==> (#[trigger] pre_activations@[b]).wf()
                        && pre_activations@[b]@.rows == input@.len()
                        && pre_activations@[b]@.cols == hidden_dim(self.dim()),
                deterministic::<T>() ==> x@ == self.through_blocks(start, i as nat),
                deterministic::<T>() ==> forall|b: int|
                    0 <= b < i ==> (#[trigger] pre_activations@[b])@ == self.block_pre_activation(
                        start,
                        b,
                    ),
            decreases self.blocks@.len() - i,
        {
            let (pre_activation, next) = self.blocks[i].forward_with_pre_activation(&x);
            let ghost kept = pre_activation;
            pre_activations.push(pre_activation);
            proof {
                assert(pre_activations@[i as int] == kept);
            }
            x = next;
            i += 1;
        }
        let output_pre_activation = self.output_layer.pre_activation(&x);
        let output = self.output_layer.forward_from(&output_pre_activation);
        (pre_activations, output_pre_activation, output)
    }

    /// The logits for `input`: one row per position.
    pub fn forward(&self, input: &[usize]) -> (output: Matrix<T>)
        requires
            self.wf(),
            self.takes(input@.len()),
        ensures
            output.wf(),
            output@.rows == input@.len(),
            output@.cols == self.vocab_size(),
            deterministic::<T>() ==> output@ == self.logits(input@),
    {
        self.forward_trace(input).2
    }

    /// The gradient of the loss by the logits `output`, and the loss.
    #[verifier::loop_isolation(false)]
    fn loss_and_gradient(output: &Matrix<T>, target: &[usize]) -> (result: (Matrix<T>, T))
        requires
            output.wf(),
            output@.cols > 0,
        ensures
            result.0.wf(),
            result.0@.same_shape(output@),
            deterministic::<T>() ==> result.0@ == loss_gradient(output@, target@),
            deterministic::<T>() ==> result.0.padded_with(zero::<T>()),
            deterministic::<T>() ==> result.1 == cross_entropy(output@, target@, output@.rows),
    {
        let rows = output.rows();
        let cols = output.cols();
        let ghost goal = loss_gradient(output@, target@);
        let mut loss = T::from_u64(0);
        let mut gradients: Matrix<T> = Matrix::new(rows, cols);
        let mut i: usize = 0;
        while i < rows
            invariant
                gradients.wf(),
                gradients@.same_shape(output@),
                i <= rows,
                deterministic::<T>() ==> gradients.padded_with(zero::<T>()),
                deterministic::<T>() ==> loss == cross_entropy(output@, target@, i as nat),
                deterministic::<T>() ==> forall|a: int, b: int|
                    0 <= a < i && 0 <= b < cols ==> gradients@.cells[a][b] == goal.cells[a][b],
            decreases rows - i,
        {
            let target_index: usize = if i < target.len() {
                target[i]
            } else {
                0
            };
            let mut row: Vec<T> = Vec::new();
            let mut j: usize = 0;
            while j < cols
                invariant
                    j <= cols,
                    row@.len() == j,
                    forall|b: int| 0 <= b < j ==> row@[b] == output@.cells[i as int][b],
                decreases cols - j,
            {
                row.push(output.get(i, j));
                j += 1;
            }
            assert(row@ =~= output@.cells[i as int]);
            let probs = softmax(row.as_slice());
            let ghost loss_before = loss;
            let mut j: usize = 0;
            while j < cols
                invariant
                    gradients.wf(),
                    gradients@.same_shape(output@),
                    j <= cols,
                    deterministic::<T>() ==> gradients.padded_with(zero::<T>()),
                    deterministic::<T>() ==> loss == (if target_index < j {
                        diff(
                            loss_before,
                            ln_of(softmax_of(output@.cells[i as int])[target_index as int]),
                        )
                    } else {
                        loss_before
                    }),
                    deterministic::<T>() ==> forall|a: int, b: int|
                        0 <= a < i && 0 <= b < cols ==> gradients@.cells[a][b] == goal.cells[a][b],
                    deterministic::<T>() ==> forall|b: int|
                        0 <= b < j ==> gradients@.cells[i as int][b] == goal.cells[i as int][b],
                decreases cols - j,
            {
                let hit = if j == target_index {
                    T::from_u64(1)
                } else {
                    T::from_u64(0)
                };
                proof {
                    gradients.lemma_cell_slot(i as int, j as int);
                }
                gradients.set(i, j, probs[j].minus(hit));
                if j == target_index {
                    loss = loss.minus(probs[j].ln());
                }
                j += 1;
            }
            i += 1;
        }
        proof {
            if deterministic::<T>() {
                lemma_grid_eq(gradients@, goal);
            }
        }
        (gradients, loss)
    }

    /// One step of training on the window `input`, whose position `i` is to
    /// predict `target[i]`: the forward pass, the cross-entropy loss, and
    /// the backward pass through output projection, blocks and embedding,
    /// each of which steps its weights as the gradient passes. Returns the
    /// loss before the step.
    #[verifier::loop_isolation(false)]
    pub fn train(&mut self, input: &[usize], target: &[usize], learning_rate: T) -> (loss: T)
        requires
            old(self).wf(),
            old(self).trains_on(input@.len()),
        ensures
            final(self).wf(),
            final(self).vocab_size() == old(self).vocab_size(),
            final(self).dim() == old(self).dim(),
            final(self).blocks@.len() == old(self).blocks@.len(),
            deterministic::<T>() ==> {
                let start = old(self).embedded(input@);
                let logits = old(self).logits(input@);
                let g = loss_gradient(logits, target@);
                let read = read_as(g, old(self).dim());
                let pre = old(self).output_pre_activation(start);
                let top = old(self).output_layer.passed_back(g, pre, read, learning_rate);
                let count = old(self).blocks@.len();
                &&& loss == cross_entropy(logits, target@, input@.len())
                &&& final(self).output_layer.stepped(
                    old(self).output_layer,
                    g,
                    pre,
                    read,
                    learning_rate,
                )
                &&& forall|b: int|
                    0 <= b < count ==> (#[trigger] final(self).blocks@[b]).stepped(
                        old(self).blocks@[b],
                        old(self).gradient_above(top, start, learning_rate, (count - 1 - b) as nat),
                        old(self).block_pre_activation(start, b),
                        learning_rate,
                    )
                &&& final(self).embedding.embeddings@ == table_stepped(
                    old(self).embedding.embeddings@,
                    input@,
                    old(self).gradient_above(top, start, learning_rate, count),
                    learning_rate,
                    input@.len(),
                )
            },
    {
        let ghost before = *self;
        let ghost start = self.embedded(input@);
        let len = input.len();
        let (pre_activations, output_pre_activation, output) = self.forward_trace(input);
        let (gradients, loss) = Self::loss_and_gradient(&output, target);
        let ghost g = gradients@;
        let ghost read = read_as(g, self.dim());
        let ghost pre = output_pre_activation@;
        proof {
            let rows = g.rows as int;
            let cols = g.cols as int;
            let width = self.dim() as int;
            gradients.lemma_capacity();
            if deterministic::<T>() {
                let seen = gradients.window(self.dim());
                assert forall|a: int, b: int| 0 <= a < rows && 0 <= b < width implies seen.cells[a][b]
                    == read.cells[a][b] by {
                    let k = a * cols + b;
                    assert(a * cols >= 0 && a * cols <= (rows - 1) * cols) by (nonlinear_arith)
                        requires
                            0 <= a <= rows - 1,
                            0 <= cols,
                    ;
                    if k < rows * cols {
                        gradients.lemma_slot_cell(k);
                    }
                }
                lemma_grid_eq(seen, read);
            }
        }
        let output_gradients = self.output_layer.backward(
            &gradients,
            &output_pre_activation,
            learning_rate,
        );
        let ghost top = output_gradients@;

        let count = self.blocks.len();
        let mut block_gradients = output_gradients;
        let mut b: usize = count;
        while b > 0
            invariant
                b <= count,
                self.blocks@.len() == count,
                self.embedding == before.embedding,
                self.output_layer.wf(),
                self.output_layer.input_dim == before.output_layer.input_dim,
                self.output_layer.output_dim == before.output_layer.output_dim,
                deterministic::<T>() ==> self.output_layer.stepped(
                    before.output_layer,
                    g,
                    pre,
                    read,
                    learning_rate,
                ),
                block_gradients.wf(),
                block_gradients@.rows == len,
                block_gradients@.cols == before.dim(),
                forall|c: int| 0 <= c < b ==> self.blocks@[c] == before.blocks@[c],
                forall|c: int|
                    0 <= c < count ==> (#[trigger] self.blocks@[c]).wf() && self.blocks@[c].dim()
                        == before.dim(),
                deterministic::<T>() ==> block_gradients@ == before.gradient_above(
                    top,
                    start,
                    learning_rate,
                    (count - b) as nat,
                ),
                deterministic::<T>() ==> forall|c: int|
                    b <= c < count ==> (#[trigger] self.blocks@[c]).stepped(
                        before.blocks@[c],
                        before.gradient_above(top, start, learning_rate, (count - 1 - c) as nat),
                        before.block_pre_activation(start, c),
                        learning_rate,
                    ),
            decreases b,
        {
            b -= 1;
            let ghost blocks_before = self.blocks@;
            block_gradients = self.blocks[b].backward(
                &block_gradients,
                &pre_activations[b],
                learning_rate,
            );
            proof {
                assert(forall|c: int|
                    0 <= c < count && c != b ==> self.blocks@[c] == blocks_before[c]);
            }
        }

        let dim = self.embedding.embedding_dim;
        let ghost table = before.embedding.embeddings@;
        let ghost below = block_gradients@;
        let mut i: usize = 0;
        while i < len
            invariant
                i <= len,
                self.blocks@.len() == count,
                forall|c: int|
                    0 <= c < count ==> (#[trigger] self.blocks@[c]).wf() && self.blocks@[c].dim()
                        == before.dim(),
                deterministic::<T>() ==> forall|c: int|
                    0 <= c < count ==> (#[trigger] self.blocks@[c]).stepped(
                        before.blocks@[c],
                        before.gradient_above(top, start, learning_rate, (count - 1 - c) as nat),
                        before.block_pre_activation(start, c),
                        learning_rate,
                    ),
                self.output_layer.wf(),
                self.output_layer.input_dim == before.output_layer.input_dim,
                self.output_layer.output_dim == before.output_layer.output_dim,
                deterministic::<T>() ==> self.output_layer.stepped(
                    before.output_layer,
                    g,
                    pre,
                    read,
                    learning_rate,
                ),
                self.embedding.wf(),
                self.embedding.vocab_size == before.embedding.vocab_size,
                self.embedding.embedding_dim == before.embedding.embedding_dim,
                deterministic::<T>() ==> self.embedding.embeddings@ == table_stepped(
                    table,
                    input@,
                    below,
                    learning_rate,
                    i as nat,
                ),
            decreases len - i,
        {
            let token = input[i];
            if token < self.embedding.embeddings.rows() {
                let ghost at_row = self.embedding.embeddings@;
                let ghost goal = row_stepped(at_row, token as int, below.cells[i as int], learning_rate);
                let mut j: usize = 0;
                while j < dim
                    invariant
                        j <= dim,
                        self.blocks@.len() == count,
                        forall|c: int|
                            0 <= c < count ==> (#[trigger] self.blocks@[c]).wf()
                                && self.blocks@[c].dim() == before.dim(),
                        deterministic::<T>() ==> forall|c: int|
                            0 <= c < count ==> (#[trigger] self.blocks@[c]).stepped(
                                before.blocks@[c],
                                before.gradient_above(
                                    top,
                                    start,
                                    learning_rate,
                                    (count - 1 - c) as nat,
                                ),
                                before.block_pre_activation(start, c),
                                learning_rate,
                            ),
                        self.output_layer.wf(),
                        self.output_layer.input_dim == before.output_layer.input_dim,
                        self.output_layer.output_dim == before.output_layer.output_dim,
                        deterministic::<T>() ==> self.output_layer.stepped(
                            before.output_layer,
                            g,
                            pre,
                            read,
                            learning_rate,
                        ),
                        self.embedding.wf(),
                        self.embedding.vocab_size == before.embedding.vocab_size,
                        self.embedding.embedding_dim == before.embedding.embedding_dim,
                        forall|a: int, c: int|
                            0 <= a < at_row.rows && 0 <= c < dim && (a != token || c >= j)
                                ==> self.embedding.embeddings@.cells[a][c] == at_row.cells[a][c],
                        deterministic::<T>() ==> forall|c: int|
                            0 <= c < j ==> self.embedding.embeddings@.cells[token as int][c]
                                == goal.cells[token as int][c],
                    decreases dim - j,
                {
                    let value = self.embedding.embeddings.get(token, j).minus(
                        learning_rate.times(block_gradients.get(i, j)),
                    );
                    self.embedding.embeddings.set(token, j, value);
                    j += 1;
                }
                proof {
                    if deterministic::<T>() {
                        lemma_grid_eq(self.embedding.embeddings@, goal);
                    }
                }
            }
            i += 1;
        }
        loss
    }

    /// The word that the model takes to follow the window `input`: the word
    /// of the token with the largest probability at the last position, and
    /// of several such tokens the first.
    pub fn predict_next_token(&self, input: &[usize], tokenizer: &Tokenizer) -> (word: String)
        requires
            self.wf(),
            self.takes(input@.len()),
            input@.len() > 0,
            0 < self.vocab_size() <= tokenizer@.len(),
        ensures
            exists|token: int| 0 <= token < self.vocab_size() && word@ == tokenizer@[token],
            self.vocab_size() == 1 ==> word@ == tokenizer@[0],
            deterministic::<T>() ==> word@ == tokenizer@[argmax_of(
                softmax_of(self.logits(input@).cells[input@.len() - 1]),
            )],
    {
        let output = self.forward(input);
        let cols = output.cols();
        let last = output.rows() - 1;
        let mut last_row: Vec<T> = Vec::new();
        let mut j: usize = 0;
        while j < cols
            invariant
                output.wf(),
                last < output@.rows,
                cols == output@.cols,
                j <= cols,
                last_row@.len() == j,
                forall|b: int| 0 <= b < j ==> last_row@[b] == output@.cells[last as int][b],
            decreases cols - j,
        {
            last_row.push(output.get(last, j));
            j += 1;
        }
        assert(last_row@ =~= output@.cells[last as int]);
        let probs = softmax(last_row.as_slice());
        let next_token = argmax(probs.as_slice());
        tokenizer.decode(next_token).to_owned()
    }
}

} // verus!
