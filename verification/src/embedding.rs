//! The embedding table and the positional signal that is added to it.

use crate::matrix::{fits, lemma_grid_eq, Grid, Matrix};
use crate::scalar::{cos_of, deterministic, lift, pow_of, quot, sin_of, zero, Scalar};
use vstd::prelude::*;

verus! {

/// The multiplier of the table's generator.
pub const LCG_MULTIPLIER: u64 = 1664525;

/// The increment of the table's generator.
pub const LCG_INCREMENT: u64 = 1013904223;

/// The modulus of the table's generator: 2^32.
pub const LCG_MODULUS: u64 = 0x1_0000_0000;

/// The seed that a new table is filled from.
pub const LCG_SEED: u64 = 123456789;

/// The seed that follows `seed`.
pub open spec fn lcg_next(seed: u64) -> u64 {
    ((LCG_MULTIPLIER as int * seed as int + LCG_INCREMENT as int) % (LCG_MODULUS as int)) as u64
}

/// The seed after `n` steps from `seed`.
pub open spec fn lcg_after(seed: u64, n: nat) -> u64
    decreases n,
{
    if n == 0 {
        seed
    } else {
        lcg_next(lcg_after(seed, (n - 1) as nat))
    }
}

/// A seed as a scalar between 0 and 1.
pub open spec fn lcg_fraction<T: Scalar>(seed: u64) -> T {
    quot(lift::<T>(seed), lift::<T>(LCG_MODULUS))
}

/// The table that `Embedding::new` fills: cell by cell in row-major order,
/// each from the next seed after `LCG_SEED`.
pub open spec fn lcg_table<T: Scalar>(rows: nat, cols: nat) -> Grid<T> {
    Grid::tabulate(
        rows,
        cols,
        |i: int, j: int| lcg_fraction::<T>(lcg_after(LCG_SEED, (i * cols + j + 1) as nat)),
    )
}

/// The rows of `table` that `tokens` name, in order. A token that names no
/// row gives a row of zeros.
pub open spec fn looked_up<T: Scalar>(table: Grid<T>, tokens: Seq<usize>) -> Grid<T> {
    Grid::tabulate(
        tokens.len(),
        table.cols,
        |i: int, j: int|
            if tokens[i] < table.rows {
                table.cells[tokens[i] as int][j]
            } else {
                zero::<T>()
            },
    )
}

/// The angle of the positional signal at position `pos` for the even
/// dimension `even` of `dim`: `pos / 10000^(even / dim)`.
pub open spec fn angle<T: Scalar>(pos: nat, even: nat, dim: nat) -> T {
    quot(
        lift::<T>(pos as u64),
        pow_of(lift::<T>(10000), quot(lift::<T>(even as u64), lift::<T>(dim as u64))),
    )
}

/// The positional signal: a sine in the even dimensions, and in each odd
/// dimension the cosine of the angle of the even one before it.
pub open spec fn encoding<T: Scalar>(seq_len: nat, dim: nat) -> Grid<T> {
    Grid::tabulate(
        seq_len,
        dim,
        |pos: int, i: int|
            if i % 2 == 0 {
                sin_of(angle::<T>(pos as nat, i as nat, dim))
            } else {
                cos_of(angle::<T>(pos as nat, (i - 1) as nat, dim))
            },
    )
}

/// A table with one row of `embedding_dim` values for each of `vocab_size`
/// tokens.
pub struct Embedding<T> {
    pub vocab_size: usize,
    pub embedding_dim: usize,
    pub embeddings: Matrix<T>,
}

impl<T: Scalar> Embedding<T> {
    /// The table has the shape that the sizes ask for.
    pub open spec fn wf(&self) -> bool {
        &&& self.embeddings.wf()
        &&& self.embeddings@.rows == self.vocab_size
        &&& self.embeddings@.cols == self.embedding_dim
    }

    /// Steps `seed` and returns the new seed as a scalar between 0 and 1.
    pub fn lcg_random(seed: &mut u64) -> (x: T)
        ensures
            *final(seed) == lcg_next(*old(seed)),
            deterministic::<T>() ==> x == lcg_fraction::<T>(*final(seed)),
    {
        let product: u64 = LCG_MULTIPLIER.wrapping_mul(*seed);
        let shifted: u64 = product.wrapping_add(LCG_INCREMENT);
        proof {
            let m = LCG_MODULUS as int;
            let x = LCG_MULTIPLIER as int * *seed as int;
            assert(0 <= x) by (nonlinear_arith)
                requires
                    x == LCG_MULTIPLIER as int * *seed as int,
                    0 <= *seed as int,
            ;
            assert(m * m == 0x1_0000_0000_0000_0000) by (nonlinear_arith)
                requires
                    m == 0x1_0000_0000,
            ;
            assert(product == x % (m * m));
            vstd::arithmetic::div_mod::lemma_add_mod_noop(x, LCG_INCREMENT as int, m * m);
            assert(shifted == (x + LCG_INCREMENT as int) % (m * m)) by {
                vstd::arithmetic::div_mod::lemma_small_mod(LCG_INCREMENT as nat, (m * m) as nat);
            }
            vstd::arithmetic::div_mod::lemma_mod_mod(x + LCG_INCREMENT as int, m, m);
        }
        *seed = shifted % LCG_MODULUS;
        T::from_u64(*seed).over(T::from_u64(LCG_MODULUS))
    }

    /// A table filled from the generator, cell by cell.
    #[verifier::loop_isolation(false)]
    pub fn new(vocab_size: usize, embedding_dim: usize) -> (embedding: Self)
        requires
            fits(vocab_size as nat, embedding_dim as nat),
        ensures
            embedding.wf(),
            embedding.vocab_size == vocab_size,
            embedding.embedding_dim == embedding_dim,
            deterministic::<T>() ==> embedding.embeddings@ == lcg_table::<T>(
                vocab_size as nat,
                embedding_dim as nat,
            ),
    {
        let mut embeddings = Matrix::new(vocab_size, embedding_dim);
        let ghost target = lcg_table::<T>(vocab_size as nat, embedding_dim as nat);
        let mut seed: u64 = LCG_SEED;
        let mut i: usize = 0;
        while i < vocab_size
            invariant
                embeddings.wf(),
                embeddings@.rows == vocab_size,
                embeddings@.cols == embedding_dim,
                i <= vocab_size,
                seed == lcg_after(LCG_SEED, (i * embedding_dim) as nat),
                deterministic::<T>() ==> forall|a: int, b: int|
                    0 <= a < i && 0 <= b < embedding_dim ==> embeddings@.cells[a][b]
                        == target.cells[a][b],
            decreases vocab_size - i,
        {
            let mut j: usize = 0;
            while j < embedding_dim
                invariant
                    embeddings.wf(),
                    embeddings@.rows == vocab_size,
                    embeddings@.cols == embedding_dim,
                    i < vocab_size,
                    j <= embedding_dim,
                    seed == lcg_after(LCG_SEED, (i * embedding_dim + j) as nat),
                    deterministic::<T>() ==> forall|a: int, b: int|
                        0 <= a < i && 0 <= b < embedding_dim ==> embeddings@.cells[a][b]
                            == target.cells[a][b],
                    deterministic::<T>() ==> forall|b: int|
                        0 <= b < j ==> embeddings@.cells[i as int][b] == target.cells[i as int][b],
                decreases embedding_dim - j,
            {
                proof {
                    assert(i * embedding_dim >= 0) by (nonlinear_arith);
                }
                let value = Self::lcg_random(&mut seed);
                embeddings.set(i, j, value);
                j += 1;
            }
            proof {
                assert((i + 1) * embedding_dim == i * embedding_dim + embedding_dim)
                    by (nonlinear_arith);
            }
            i += 1;
        }
        proof {
            if deterministic::<T>() {
                lemma_grid_eq(embeddings@, target);
            }
        }
        Embedding { vocab_size, embedding_dim, embeddings }
    }

    /// The rows of the table for `input`, one row per token. A token beyond
    /// the vocabulary gets a row of zeros.
    #[verifier::loop_isolation(false)]
    pub fn forward(&self, input: Vec<usize>) -> (result: Matrix<T>)
        requires
            self.wf(),
            fits(input@.len(), self.embedding_dim as nat),
        ensures
            result.wf(),
            result@.rows == input@.len(),
            result@.cols == self.embedding_dim,
            forall|i: int, j: int|
                0 <= i < input@.len() && 0 <= j < self.embedding_dim && input@[i] < self.vocab_size
                    ==> result@.cells[i][j] == self.embeddings@.cells[input@[i] as int][j],
            deterministic::<T>() ==> result@ == looked_up(self.embeddings@, input@),
    {
        let rows = input.len();
        let dim = self.embedding_dim;
        let ghost target = looked_up(self.embeddings@, input@);
        let mut result = Matrix::new(rows, dim);
        let ghost blank = result@;
        let mut i: usize = 0;
        while i < rows
            invariant
                result.wf(),
                result@.rows == rows,
                result@.cols == dim,
                i <= rows,
                forall|a: int, b: int|
                    i <= a < rows && 0 <= b < dim ==> result@.cells[a][b] == blank.cells[a][b],
                forall|a: int, b: int|
                    0 <= a < i && 0 <= b < dim && input@[a] < self.vocab_size
                        ==> result@.cells[a][b] == self.embeddings@.cells[input@[a] as int][b],
                forall|a: int, b: int|
                    0 <= a < i && 0 <= b < dim && input@[a] >= self.vocab_size
                        ==> result@.cells[a][b] == blank.cells[a][b],
            decreases rows - i,
        {
            let token = input[i];
            if token < self.vocab_size {
                let mut j: usize = 0;
                while j < dim
                    invariant
                        result.wf(),
                        result@.rows == rows,
                        result@.cols == dim,
                        i < rows,
                        j <= dim,
                        forall|a: int, b: int|
                            i < a < rows && 0 <= b < dim ==> result@.cells[a][b]
                                == blank.cells[a][b],
                        forall|a: int, b: int|
                            0 <= a < i && 0 <= b < dim && input@[a] < self.vocab_size
                                ==> result@.cells[a][b] == self.embeddings@.cells[input@[a] as int][b],
                        forall|a: int, b: int|
                            0 <= a < i && 0 <= b < dim && input@[a] >= self.vocab_size
                                ==> result@.cells[a][b] == blank.cells[a][b],
                        forall|b: int|
                            0 <= b < j ==> result@.cells[i as int][b]
                                == self.embeddings@.cells[token as int][b],
                    decreases dim - j,
                {
                    result.set(i, j, self.embeddings.get(token, j));
                    j += 1;
                }
            }
            i += 1;
        }
        proof {
            if deterministic::<T>() {
                assert forall|a: int, b: int| 0 <= a < rows && 0 <= b < dim implies result@.cells[a][b]
                    == target.cells[a][b] by {
                    if input@[a] >= self.vocab_size {
                        assert(result@.cells[a][b] == blank.cells[a][b]);
                    }
                }
                lemma_grid_eq(result@, target);
            }
        }
        result
    }
}

/// The positional signal for `seq_len` positions of `embedding_dim` values.
#[verifier::loop_isolation(false)]
pub fn positional_encoding<T: Scalar>(seq_len: usize, embedding_dim: usize) -> (result: Matrix<T>)
    requires
        fits(seq_len as nat, embedding_dim as nat),
    ensures
        result.wf(),
        result@.rows == seq_len,
        result@.cols == embedding_dim,
        deterministic::<T>() ==> result@ == encoding::<T>(seq_len as nat, embedding_dim as nat),
{
    let ghost target = encoding::<T>(seq_len as nat, embedding_dim as nat);
    let mut result = Matrix::new(seq_len, embedding_dim);
    let mut pos: usize = 0;
    while pos < seq_len
        invariant
            result.wf(),
            result@.rows == seq_len,
            result@.cols == embedding_dim,
            pos <= seq_len,
            deterministic::<T>() ==> forall|a: int, b: int|
                0 <= a < pos && 0 <= b < embedding_dim ==> result@.cells[a][b]
                    == target.cells[a][b],
        decreases seq_len - pos,
    {
        let mut i: usize = 0;
        while i < embedding_dim
            invariant
                result.wf(),
                result@.rows == seq_len,
                result@.cols == embedding_dim,
                pos < seq_len,
                i <= embedding_dim,
                deterministic::<T>() ==> forall|a: int, b: int|
                    0 <= a < pos && 0 <= b < embedding_dim ==> result@.cells[a][b]
                        == target.cells[a][b],
                deterministic::<T>() ==> forall|b: int|
                    0 <= b < i ==> result@.cells[pos as int][b] == target.cells[pos as int][b],
            decreases embedding_dim - i,
        {
            let even: usize = if i % 2 == 0 {
                i
            } else {
                i - 1
            };
            let angle = T::from_u64(pos as u64).over(
                T::from_u64(10000).powf(
                    T::from_u64(even as u64).over(T::from_u64(embedding_dim as u64)),
                ),
            );
            if i % 2 == 0 {
                result.set(pos, i, angle.sin());
            } else {
                result.set(pos, i, angle.cos());
            }
            i += 1;
        }
        pos += 1;
    }
    proof {
        if deterministic::<T>() {
            lemma_grid_eq(result@, target);
        }
    }
    result
}

} // verus!
