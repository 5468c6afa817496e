//! One block of the model: attention and a feed-forward network, each
//! followed by a residual sum and a layer normalization.

use crate::attention::MultiHeadAttention;
use crate::feed_forward::{hidden_dim, FeedForward};
use crate::layer_norm::LayerNorm;
use crate::matrix::{fits, Grid, Matrix};
use crate::scalar::{deterministic, one, zero, Scalar};
use vstd::prelude::*;

verus! {

/// A transformer block.
pub struct TransformerBlock<T> {
    pub attention: MultiHeadAttention<T>,
    pub feed_forward: FeedForward<T>,
    pub norm1: LayerNorm<T>,
    pub norm2: LayerNorm<T>,
}

impl<T: Scalar> TransformerBlock<T> {
    /// The width of the vectors that the block takes and gives.
    pub open spec fn dim(&self) -> nat {
        self.attention.dim as nat
    }

    /// All four layers are well formed and of one width.
    pub open spec fn wf(&self) -> bool {
        &&& self.attention.wf()
        &&& self.feed_forward.wf()
        &&& self.feed_forward.input_dim == self.attention.dim
        &&& self.feed_forward.output_dim == self.attention.dim
        &&& self.norm1.wf()
        &&& self.norm1.dim == self.attention.dim
        &&& self.norm2.wf()
        &&& self.norm2.dim == self.attention.dim
    }

    /// The input of the feed-forward network for the block's input `x`:
    /// attention of `x` over itself, added to `x` and normalized.
    pub open spec fn attended(&self, x: Grid<T>) -> Grid<T> {
        self.norm1.output(x.plus(self.attention.output(x, x, x)))
    }

    /// The pre-activation of the feed-forward network's hidden layer for the
    /// block's input `x`.
    pub open spec fn pre_activation_of(&self, x: Grid<T>) -> Grid<T> {
        self.feed_forward.pre_activation_of(self.attended(x))
    }

    /// What the block makes of `x`: attention of `x` over itself, added to
    /// `x` and normalized; then the feed-forward network, added to its own
    /// input and normalized.
    pub open spec fn output(&self, x: Grid<T>) -> Grid<T> {
        let attended = self.attended(x);
        self.norm2.output(attended.plus(self.feed_forward.output(attended)))
    }

    /// The gradient as it leaves the second normalization on the way back.
    pub open spec fn back_through_norm2(&self, g: Grid<T>) -> Grid<T> {
        self.norm2.passed_back(g)
    }

    /// The gradient as it leaves the feed-forward network on the way back,
    /// where `pre` is the network's pre-activation in the forward pass.
    pub open spec fn back_through_feed_forward(
        &self,
        g: Grid<T>,
        pre: Grid<T>,
        learning_rate: T,
    ) -> Grid<T> {
        let g2 = self.back_through_norm2(g);
        self.feed_forward.passed_back(g2, pre, g2, learning_rate)
    }

    /// The gradient as it leaves the first normalization on the way back.
    pub open spec fn back_through_norm1(
        &self,
        g: Grid<T>,
        pre: Grid<T>,
        learning_rate: T,
    ) -> Grid<T> {
        self.norm1.passed_back(self.back_through_feed_forward(g, pre, learning_rate))
    }

    /// The gradient by the block's input, given the gradient `g` by its
    /// output and the pre-activation `pre` of its feed-forward network in the
    /// forward pass. It runs back through the layers one after the other:
    /// second normalization, feed-forward network, first normalization,
    /// attention. The residual sums hand on nothing of their own.
    pub open spec fn passed_back(&self, g: Grid<T>, pre: Grid<T>, learning_rate: T) -> Grid<T> {
        self.attention.passed_back(self.back_through_norm1(g, pre, learning_rate))
    }

    /// `self` is `before` after one backward pass with the gradient `g` and
    /// the pre-activation `pre`.
    pub open spec fn stepped(
        &self,
        before: Self,
        g: Grid<T>,
        pre: Grid<T>,
        learning_rate: T,
    ) -> bool {
        let g2 = before.back_through_norm2(g);
        &&& self.norm2.stepped(before.norm2, g, learning_rate)
        &&& self.feed_forward.stepped(before.feed_forward, g2, pre, g2, learning_rate)
        &&& self.norm1.stepped(
            before.norm1,
            before.back_through_feed_forward(g, pre, learning_rate),
            learning_rate,
        )
        &&& self.attention.stepped(
            before.attention,
            before.back_through_norm1(g, pre, learning_rate),
            learning_rate,
        )
    }

    /// The biases of the feed-forward network are zero, and both
    /// normalizations have every scale one and every shift zero.
    pub open spec fn neutral(&self) -> bool {
        let dim = self.dim();
        &&& self.feed_forward.b1@ == Seq::new(hidden_dim(dim), |i: int| zero::<T>())
        &&& self.feed_forward.b2@ == Seq::new(dim, |i: int| zero::<T>())
        &&& self.norm1.gamma@ == Seq::new(dim, |i: int| one::<T>())
        &&& self.norm1.beta@ == Seq::new(dim, |i: int| zero::<T>())
        &&& self.norm2.gamma@ == Seq::new(dim, |i: int| one::<T>())
        &&& self.norm2.beta@ == Seq::new(dim, |i: int| zero::<T>())
    }

    /// Every weight of the attention and of the feed-forward network is
    /// zero.
    pub open spec fn zeroed(&self) -> bool {
        let dim = self.dim();
        &&& self.attention.w_q@ == Grid::filled(dim, dim, zero::<T>())
        &&& self.attention.w_k@ == Grid::filled(dim, dim, zero::<T>())
        &&& self.attention.w_v@ == Grid::filled(dim, dim, zero::<T>())
        &&& self.attention.w_o@ == Grid::filled(dim, dim, zero::<T>())
        &&& self.feed_forward.w1@ == Grid::filled(dim, hidden_dim(dim), zero::<T>())
        &&& self.feed_forward.w2@ == Grid::filled(hidden_dim(dim), dim, zero::<T>())
    }

    /// A block of `heads` heads over vectors of width `dim`, with all
    /// weights zero and the normalizations at scale one.
    pub fn new(heads: usize, dim: usize) -> (block: Self)
        requires
            heads > 0,
            dim % heads == 0,
            dim * 4 <= usize::MAX,
            fits(hidden_dim(dim as nat), dim as nat),
        ensures
            block.wf(),
            block.dim() == dim,
            block.attention.heads == heads,
            deterministic::<T>() ==> block.zeroed() && block.neutral(),
    {
        proof {
            assert(dim * dim <= (dim * 4) * dim) by (nonlinear_arith)
                requires
                    0 <= dim,
            ;
            assert(dim * (dim * 4) == (dim * 4) * dim) by (nonlinear_arith);
        }
        TransformerBlock {
            attention: MultiHeadAttention::new(heads, dim),
            feed_forward: FeedForward::new(dim, dim),
            norm1: LayerNorm::new(dim),
            norm2: LayerNorm::new(dim),
        }
    }

    /// The pre-activation of the feed-forward network's hidden layer and the
    /// block's output for `input`, in this order.
    pub fn forward_with_pre_activation(&self, input: &Matrix<T>) -> (result: (
        Matrix<T>,
        Matrix<T>,
    ))
        requires
            self.wf(),
            input.wf(),
            input@.cols == self.dim(),
            fits(input@.rows, input@.rows),
            fits(input@.rows, hidden_dim(self.dim())),
        ensures
            result.0.wf(),
            result.0@.rows == input@.rows,
            result.0@.cols == hidden_dim(self.dim()),
            result.1.wf(),
            result.1@.same_shape(input@),
            deterministic::<T>() ==> result.0@ == self.pre_activation_of(input@),
            deterministic::<T>() ==> result.1@ == self.output(input@),
    {
        let attention_output = self.attention.forward(input, input, input);
        let normed_attention_output = self.norm1.forward(&input.add(&attention_output));
        let pre_activation = self.feed_forward.pre_activation(&normed_attention_output);
        let feed_forward_output = self.feed_forward.forward_from(&pre_activation);
        let output = self.norm2.forward(&normed_attention_output.add(&feed_forward_output));
        (pre_activation, output)
    }

    /// The pre-activation of the feed-forward network's hidden layer for
    /// `input`: what `backward` needs of the forward pass.
    pub fn pre_activation(&self, input: &Matrix<T>) -> (pre: Matrix<T>)
        requires
            self.wf(),
            input.wf(),
            input@.cols == self.dim(),
            fits(input@.rows, input@.rows),
            fits(input@.rows, hidden_dim(self.dim())),
        ensures
            pre.wf(),
            pre@.rows == input@.rows,
            pre@.cols == hidden_dim(self.dim()),
            deterministic::<T>() ==> pre@ == self.pre_activation_of(input@),
    {
        self.forward_with_pre_activation(input).0
    }

    /// The block's output for `input`, one row per position.
    pub fn forward(&self, input: &Matrix<T>) -> (output: Matrix<T>)
        requires
            self.wf(),
            input.wf(),
            input@.cols == self.dim(),
            fits(input@.rows, input@.rows),
            fits(input@.rows, hidden_dim(self.dim())),
        ensures
            output.wf(),
            output@.same_shape(input@),
            deterministic::<T>() ==> output@ == self.output(input@),
    {
        self.forward_with_pre_activation(input).1
    }

    /// One step of gradient descent on all four layers, given the gradient
    /// `gradients` of the loss by the block's output and the pre-activation
    /// `pre_activation` of the feed-forward network in the forward pass.
    /// Returns the gradient by the block's input.
    pub fn backward(
        &mut self,
        gradients: &Matrix<T>,
        pre_activation: &Matrix<T>,
        learning_rate: T,
    ) -> (input_gradients: Matrix<T>)
        requires
            old(self).wf(),
            gradients.wf(),
            gradients@.cols == old(self).dim(),
            gradients@.rows <= old(self).dim(),
            fits(gradients@.rows, hidden_dim(old(self).dim())),
            pre_activation.wf(),
            pre_activation@.rows == gradients@.rows,
            pre_activation@.cols == hidden_dim(old(self).dim()),
        ensures
            final(self).wf(),
            final(self).dim() == old(self).dim(),
            final(self).attention.heads == old(self).attention.heads,
            input_gradients.wf(),
            input_gradients@.same_shape(gradients@),
            deterministic::<T>() ==> input_gradients@ == old(self).passed_back(
                gradients@,
                pre_activation@,
                learning_rate,
            ),
            deterministic::<T>() ==> final(self).stepped(
                *old(self),
                gradients@,
                pre_activation@,
                learning_rate,
            ),
    {
        let norm2_gradients = self.norm2.backward(gradients, learning_rate);
        proof {
            let rows = norm2_gradients@.rows as int;
            let dim = norm2_gradients@.cols as int;
            norm2_gradients.lemma_capacity();
            norm2_gradients.lemma_window_whole();
            assert((rows - 1) * dim + dim == rows * dim) by (nonlinear_arith);
        }
        let ff_gradients = self.feed_forward.backward(
            &norm2_gradients,
            pre_activation,
            learning_rate,
        );
        let norm1_gradients = self.norm1.backward(&ff_gradients, learning_rate);
        self.attention.backward(&norm1_gradients, learning_rate)
    }
}

} // verus!
