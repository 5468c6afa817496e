//! A dense matrix of scalars in chunked storage.
//!
//! The cells are kept in row-major order in chunks of [`CHUNK_SIZE`] values.
//! Cell `(row, col)` has the index `row * cols + col`; it lies in chunk
//! `index / CHUNK_SIZE` at offset `index % CHUNK_SIZE`. The last chunk may hold
//! slots beyond the last cell. They are storage only: no cell lies there.

use crate::scalar::{deterministic, diff, dot_from, prod, sum, zero, Scalar};
use vstd::prelude::*;

verus! {

/// The number of values in one chunk of storage.
pub const CHUNK_SIZE: usize = 64;

/// What a matrix holds: its shape and its cells, row by row.
pub struct Grid<T> {
    pub rows: nat,
    pub cols: nat,
    pub cells: Seq<Seq<T>>,
}

impl<T> Grid<T> {
    /// There are `rows` rows of `cols` cells each.
    pub open spec fn wf(self) -> bool {
        &&& self.cells.len() == self.rows
        &&& forall|i: int| 0 <= i < self.rows ==> (#[trigger] self.cells[i]).len() == self.cols
    }

    /// The grid whose cell `(i, j)` is `f(i, j)`.
    pub open spec fn tabulate(rows: nat, cols: nat, f: spec_fn(int, int) -> T) -> Grid<T> {
        Grid { rows, cols, cells: Seq::new(rows, |i: int| Seq::new(cols, |j: int| f(i, j))) }
    }

    /// The grid with `value` in every cell.
    pub open spec fn filled(rows: nat, cols: nat, value: T) -> Grid<T> {
        Grid::tabulate(rows, cols, |i: int, j: int| value)
    }

    /// Column `c`, from the top.
    pub open spec fn col(self, c: int) -> Seq<T> {
        Seq::new(self.rows, |r: int| self.cells[r][c])
    }

    /// This grid with `value` in cell `(r, c)`.
    pub open spec fn set(self, r: int, c: int, value: T) -> Grid<T> {
        Grid { cells: self.cells.update(r, self.cells[r].update(c, value)), ..self }
    }

    /// The columns `start .. start + width`.
    pub open spec fn columns(self, start: int, width: nat) -> Grid<T> {
        Grid::tabulate(self.rows, width, |i: int, j: int| self.cells[i][start + j])
    }

    /// Rows and columns exchanged.
    pub open spec fn transpose(self) -> Grid<T> {
        Grid::tabulate(self.cols, self.rows, |i: int, j: int| self.cells[j][i])
    }

    /// The two grids have one shape.
    pub open spec fn same_shape(self, other: Grid<T>) -> bool {
        self.rows == other.rows && self.cols == other.cols
    }
}

impl<T: Scalar> Grid<T> {
    /// The matrix product: cell `(i, j)` is row `i` of `self` times column
    /// `j` of `other`, added up from the left, starting at zero.
    pub open spec fn product(self, other: Grid<T>) -> Grid<T> {
        Grid::tabulate(
            self.rows,
            other.cols,
            |i: int, j: int| dot_from(zero::<T>(), self.cells[i], other.col(j), self.cols),
        )
    }

    /// The sum, cell by cell.
    pub open spec fn plus(self, other: Grid<T>) -> Grid<T> {
        Grid::tabulate(
            self.rows,
            self.cols,
            |i: int, j: int| sum(self.cells[i][j], other.cells[i][j]),
        )
    }

    /// The difference, cell by cell.
    pub open spec fn minus(self, other: Grid<T>) -> Grid<T> {
        Grid::tabulate(
            self.rows,
            self.cols,
            |i: int, j: int| diff(self.cells[i][j], other.cells[i][j]),
        )
    }

    /// Every cell times `scalar`.
    pub open spec fn scaled(self, scalar: T) -> Grid<T> {
        Grid::tabulate(self.rows, self.cols, |i: int, j: int| prod(self.cells[i][j], scalar))
    }
}

/// Two grids of one shape that agree in every cell are equal.
pub proof fn lemma_grid_eq<T>(a: Grid<T>, b: Grid<T>)
    requires
        a.wf(),
        b.wf(),
        a.same_shape(b),
        forall|i: int, j: int| 0 <= i < a.rows && 0 <= j < a.cols ==> a.cells[i][j] == b.cells[i][j],
    ensures
        a == b,
{
    assert forall|i: int| 0 <= i < a.rows implies a.cells[i] == b.cells[i] by {
        assert(a.cells[i].len() == a.cols);
        assert(b.cells[i].len() == b.cols);
        assert(a.cells[i] =~= b.cells[i]);
    }
    assert(a.cells =~= b.cells);
}

/// Transposing twice gives the grid back.
pub proof fn lemma_transpose_twice<T>(g: Grid<T>)
    requires
        g.wf(),
    ensures
        g.transpose().transpose() == g,
{
    lemma_grid_eq(g.transpose().transpose(), g);
}

/// A cell that was set holds the value it was set to, and every other cell
/// holds what it held before.
pub proof fn lemma_set_then_get<T>(g: Grid<T>, r: int, c: int, value: T, i: int, j: int)
    requires
        g.wf(),
        0 <= r < g.rows,
        0 <= c < g.cols,
        0 <= i < g.rows,
        0 <= j < g.cols,
    ensures
        g.set(r, c, value).wf(),
        g.set(r, c, value).same_shape(g),
        g.set(r, c, value).cells[r][c] == value,
        (i != r || j != c) ==> g.set(r, c, value).cells[i][j] == g.cells[i][j],
{
}

/// A product has the rows of the left and the columns of the right.
pub proof fn lemma_product_shape<T: Scalar>(a: Grid<T>, b: Grid<T>)
    ensures
        a.product(b).wf(),
        a.product(b).rows == a.rows,
        a.product(b).cols == b.cols,
{
}

/// All columns of a grid are the grid.
pub proof fn lemma_columns_whole<T>(g: Grid<T>)
    requires
        g.wf(),
    ensures
        g.columns(0, g.cols) == g,
{
    lemma_grid_eq(g.columns(0, g.cols), g);
}

/// The number of chunks that hold `cells` values.
pub open spec fn chunks_for(cells: nat) -> nat {
    (cells + CHUNK_SIZE - 1) as nat / (CHUNK_SIZE as nat)
}

/// The number of storage slots of a matrix of this shape: its cells,
/// rounded up to whole chunks.
pub open spec fn slots_for(rows: nat, cols: nat) -> nat {
    chunks_for(rows * cols) * CHUNK_SIZE as nat
}

/// A matrix of this shape can be stored: the count of its cells and one
/// chunk more is a `usize`.
pub open spec fn fits(rows: nat, cols: nat) -> bool {
    rows * cols + CHUNK_SIZE <= usize::MAX
}

/// Whether a matrix of this shape can be stored.
pub fn can_store(rows: usize, cols: usize) -> (yes: bool)
    ensures
        yes == fits(rows as nat, cols as nat),
{
    match rows.checked_mul(cols) {
        Some(cells) => cells.checked_add(CHUNK_SIZE).is_some(),
        None => false,
    }
}

/// The number of storage slots of a matrix of this shape.
pub fn slots_needed(rows: usize, cols: usize) -> (slots: usize)
    requires
        fits(rows as nat, cols as nat),
    ensures
        slots == slots_for(rows as nat, cols as nat),
{
    assert(rows * cols >= 0) by (nonlinear_arith);
    (rows * cols + CHUNK_SIZE - 1) / CHUNK_SIZE * CHUNK_SIZE
}

/// A dense `rows` by `cols` matrix.
pub struct Matrix<T> {
    rows: usize,
    cols: usize,
    data: Vec<[T; CHUNK_SIZE]>,
}

proof fn lemma_index_bound(r: int, c: int, rows: int, cols: int)
    requires
        0 <= r < rows,
        0 <= c < cols,
    ensures
        0 <= r * cols + c < rows * cols,
        r * cols + c < (r + 1) * cols,
{
    assert(r * cols >= 0) by (nonlinear_arith)
        requires
            r >= 0,
            cols > 0,
    ;
    assert((r + 1) * cols <= rows * cols) by (nonlinear_arith)
        requires
            r + 1 <= rows,
            cols > 0,
    ;
    assert((r + 1) * cols == r * cols + cols) by (nonlinear_arith);
}

proof fn lemma_index_unique(i: int, j: int, r: int, c: int, cols: int)
    requires
        0 <= i,
        0 <= r,
        0 <= j < cols,
        0 <= c < cols,
        i * cols + j == r * cols + c,
    ensures
        i == r,
        j == c,
{
    if i < r {
        assert((i + 1) * cols <= r * cols) by (nonlinear_arith)
            requires
                i + 1 <= r,
                cols > 0,
        ;
        assert((i + 1) * cols == i * cols + cols) by (nonlinear_arith);
    } else if r < i {
        assert((r + 1) * cols <= i * cols) by (nonlinear_arith)
            requires
                r + 1 <= i,
                cols > 0,
        ;
        assert((r + 1) * cols == r * cols + cols) by (nonlinear_arith);
    }
}

impl<T> View for Matrix<T> {
    type V = Grid<T>;

    closed spec fn view(&self) -> Grid<T> {
        Grid::tabulate(
            self.rows as nat,
            self.cols as nat,
            |i: int, j: int| self.slot(i * self.cols + j),
        )
    }
}

impl<T> Matrix<T> {
    /// The storage agrees with the shape.
    pub closed spec fn inv(&self) -> bool {
        &&& fits(self.rows as nat, self.cols as nat)
        &&& self.data@.len() == chunks_for((self.rows * self.cols) as nat)
    }

    /// The matrix is well formed: its storage agrees with its shape, and it
    /// holds a cell for every row and column.
    pub open spec fn wf(&self) -> bool {
        &&& self.inv()
        &&& self@.wf()
        &&& fits(self@.rows, self@.cols)
    }

    /// The value in storage slot `index`.
    pub closed spec fn slot(&self, index: int) -> T {
        self.data@[index / (CHUNK_SIZE as int)]@[index % (CHUNK_SIZE as int)]
    }

    /// The number of storage slots: the cells, rounded up to whole chunks.
    pub open spec fn capacity(&self) -> nat {
        slots_for(self@.rows, self@.cols)
    }

    /// The storage holds every cell, and its slots can be counted.
    pub proof fn lemma_capacity(&self)
        requires
            self.wf(),
        ensures
            self@.rows * self@.cols <= self.capacity() <= usize::MAX,
    {
    }

    /// Cell `(row, col)` is the value in slot `row * cols + col`.
    pub proof fn lemma_cell_slot(&self, row: int, col: int)
        requires
            self.wf(),
            0 <= row < self@.rows,
            0 <= col < self@.cols,
        ensures
            0 <= row * self@.cols + col < self@.rows * self@.cols,
            self@.cells[row][col] == self.slot(row * self@.cols + col),
    {
        lemma_index_bound(row, col, self.rows as int, self.cols as int);
    }

    /// The storage as rows of `width` values: row `i` starts where row `i`
    /// of the matrix starts. With `width` beyond the matrix's own, a row of
    /// the window runs on into what follows in storage.
    pub open spec fn window(&self, width: nat) -> Grid<T> {
        Grid::tabulate(self@.rows, width, |i: int, j: int| self.slot(i * self@.cols + j))
    }

    /// The slots beyond the last cell all hold `value`.
    pub open spec fn padded_with(&self, value: T) -> bool {
        forall|s: int| self@.rows * self@.cols <= s < self.capacity() ==> self.slot(s) == value
    }

    /// A window as wide as the matrix shows the matrix.
    pub proof fn lemma_window_whole(&self)
        requires
            self.wf(),
        ensures
            self.window(self@.cols) == self@,
    {
        let a = self.window(self@.cols);
        assert forall|i: int, j: int| 0 <= i < a.rows && 0 <= j < a.cols implies a.cells[i][j]
            == self@.cells[i][j] by {
            self.lemma_cell_slot(i, j);
        }
        lemma_grid_eq(a, self@);
    }

    /// Slot `s` below the count of cells is cell `(s / cols, s % cols)`.
    pub proof fn lemma_slot_cell(&self, s: int)
        requires
            self.wf(),
            0 <= s < self@.rows * self@.cols,
        ensures
            0 <= s / (self@.cols as int) < self@.rows,
            0 <= s % (self@.cols as int) < self@.cols,
            self.slot(s) == self@.cells[s / (self@.cols as int)][s % (self@.cols as int)],
    {
        let cols = self.cols as int;
        let rows = self.rows as int;
        assert(cols > 0) by (nonlinear_arith)
            requires
                0 <= s < rows * cols,
                0 <= cols,
        ;
        vstd::arithmetic::div_mod::lemma_fundamental_div_mod(s, cols);
        vstd::arithmetic::div_mod::lemma_div_pos_is_pos(s, cols);
        let r = s / cols;
        let c = s % cols;
        assert(s == cols * r + c);
        assert(cols * r == r * cols) by (nonlinear_arith);
        if r >= rows {
            assert(r * cols >= rows * cols) by (nonlinear_arith)
                requires
                    r >= rows,
                    cols > 0,
            ;
        }
        self.lemma_cell_slot(r, c);
    }

    /// The number of storage slots.
    pub fn slots(&self) -> (n: usize)
        requires
            self.wf(),
        ensures
            n == self.capacity(),
    {
        self.data.len() * CHUNK_SIZE
    }

    /// The number of rows.
    pub fn rows(&self) -> (n: usize)
        ensures
            n == self@.rows,
    {
        self.rows
    }

    /// The number of columns.
    pub fn cols(&self) -> (n: usize)
        ensures
            n == self@.cols,
    {
        self.cols
    }
}

impl<T: Copy> Matrix<T> {
    /// A `rows` by `cols` matrix with `value` in every cell.
    pub fn filled(rows: usize, cols: usize, value: T) -> (m: Self)
        requires
            fits(rows as nat, cols as nat),
        ensures
            m.wf(),
            m@ == Grid::filled(rows as nat, cols as nat, value),
            forall|s: int| 0 <= s < m.capacity() ==> m.slot(s) == value,
    {
        assert(rows * cols >= 0) by (nonlinear_arith);
        let total: usize = rows * cols;
        let chunks_needed: usize = (total + CHUNK_SIZE - 1) / CHUNK_SIZE;
        let mut data: Vec<[T; CHUNK_SIZE]> = Vec::new();
        let mut n: usize = 0;
        while n < chunks_needed
            invariant
                n <= chunks_needed,
                data@.len() == n,
                forall|c: int, o: int|
                    0 <= c < n && 0 <= o < CHUNK_SIZE ==> #[trigger] data@[c]@[o] == value,
            decreases chunks_needed - n,
        {
            let chunk: [T; CHUNK_SIZE] = [value; CHUNK_SIZE];
            data.push(chunk);
            n += 1;
        }
        let m = Matrix { rows, cols, data };
        proof {
            assert forall|s: int| 0 <= s < m.capacity() implies m.slot(s) == value by {
                assert(0 <= s / 64 < chunks_needed);
                assert(0 <= s % 64 < 64);
            }
            assert forall|i: int, j: int| 0 <= i < rows && 0 <= j < cols implies m@.cells[i][j]
                == value by {
                lemma_index_bound(i, j, rows as int, cols as int);
            }
            lemma_grid_eq(m@, Grid::filled(rows as nat, cols as nat, value));
        }
        m
    }

    /// The value in cell `(row, col)`.
    pub fn get(&self, row: usize, col: usize) -> (value: T)
        requires
            self.wf(),
            row < self@.rows,
            col < self@.cols,
        ensures
            value == self@.cells[row as int][col as int],
    {
        proof {
            lemma_index_bound(row as int, col as int, self.rows as int, self.cols as int);
        }
        let index: usize = row * self.cols + col;
        let chunk: usize = index / CHUNK_SIZE;
        let offset: usize = index % CHUNK_SIZE;
        self.data[chunk][offset]
    }

    /// The value in storage at `row * cols + col`: cell `(row, col)` where
    /// `col` is a column of the matrix, and what follows that row in storage
    /// where it is not.
    pub fn peek(&self, row: usize, col: usize) -> (value: T)
        requires
            self.wf(),
            row * self@.cols + col < self.capacity(),
        ensures
            value == self.slot(row * self@.cols + col),
    {
        assert(row * self.cols >= 0) by (nonlinear_arith);
        let index: usize = row * self.cols + col;
        let chunk: usize = index / CHUNK_SIZE;
        let offset: usize = index % CHUNK_SIZE;
        self.data[chunk][offset]
    }

    /// Overwrites cell `(row, col)` with `value`.
    pub fn set(&mut self, row: usize, col: usize, value: T)
        requires
            old(self).wf(),
            row < old(self)@.rows,
            col < old(self)@.cols,
        ensures
            final(self).wf(),
            final(self)@ == old(self)@.set(row as int, col as int, value),
            final(self).capacity() == old(self).capacity(),
            forall|s: int|
                0 <= s < old(self).capacity() && s != row * old(self)@.cols + col
                    ==> final(self).slot(s) == old(self).slot(s),
    {
        proof {
            lemma_index_bound(row as int, col as int, self.rows as int, self.cols as int);
        }
        let index: usize = row * self.cols + col;
        let chunk: usize = index / CHUNK_SIZE;
        let offset: usize = index % CHUNK_SIZE;
        self.data[chunk][offset] = value;
        proof {
            let before = *old(self);
            let after = *self;
            assert forall|s: int| 0 <= s < before.capacity() implies after.slot(s) == (if s
                == index {
                value
            } else {
                before.slot(s)
            }) by {
                if s / 64 == chunk as int {
                    assert(s == 64 * (s / 64) + s % 64);
                    assert(index == 64 * (index / 64) + index % 64);
                }
            }
            assert forall|i: int, j: int| 0 <= i < self.rows && 0 <= j < self.cols implies after@.cells[i][j]
                == before@.set(row as int, col as int, value).cells[i][j] by {
                lemma_index_bound(i, j, self.rows as int, self.cols as int);
                if i * self.cols + j == index {
                    lemma_index_unique(i, j, row as int, col as int, self.cols as int);
                }
            }
            lemma_grid_eq(after@, before@.set(row as int, col as int, value));
        }
    }

    /// Overwrites storage slot `index` with `value`.
    pub fn set_slot(&mut self, index: usize, value: T)
        requires
            old(self).wf(),
            index < old(self).capacity(),
        ensures
            final(self).wf(),
            final(self)@.same_shape(old(self)@),
            final(self).capacity() == old(self).capacity(),
            final(self).slot(index as int) == value,
            forall|s: int|
                0 <= s < old(self).capacity() && s != index ==> final(self).slot(s)
                    == old(self).slot(s),
    {
        let chunk: usize = index / CHUNK_SIZE;
        let offset: usize = index % CHUNK_SIZE;
        self.data[chunk][offset] = value;
        proof {
            let before = *old(self);
            let after = *self;
            assert forall|s: int| 0 <= s < before.capacity() && s != index implies after.slot(s)
                == before.slot(s) by {
                if s / 64 == chunk as int {
                    assert(s == 64 * (s / 64) + s % 64);
                    assert(index == 64 * (index / 64) + index % 64);
                }
            }
        }
    }

    /// The matrix with rows and columns exchanged.
    pub fn transpose(&self) -> (t: Matrix<T>)
        requires
            self.wf(),
        ensures
            t.wf(),
            t@ == self@.transpose(),
    {
        let rows = self.cols;
        let cols = self.rows;
        assert(rows * cols == cols * rows) by (nonlinear_arith);
        if rows == 0 || cols == 0 {
            let t = Matrix { rows, cols, data: Vec::new() };
            proof {
                assert(rows * cols == 0) by (nonlinear_arith)
                    requires
                        rows == 0 || cols == 0,
                ;
                lemma_grid_eq(t@, self@.transpose());
            }
            return t;
        }
        let mut t = Matrix::filled(rows, cols, self.get(0, 0));
        let mut i: usize = 0;
        while i < rows
            invariant
                self.wf(),
                t.wf(),
                rows == self@.cols,
                cols == self@.rows,
                t@.rows == rows,
                t@.cols == cols,
                i <= rows,
                forall|a: int, b: int| 0 <= a < i && 0 <= b < cols ==> t@.cells[a][b] == self@.cells[b][a],
            decreases rows - i,
        {
            let mut j: usize = 0;
            while j < cols
                invariant
                    self.wf(),
                    t.wf(),
                    rows == self@.cols,
                    cols == self@.rows,
                    t@.rows == rows,
                    t@.cols == cols,
                    i < rows,
                    j <= cols,
                    forall|a: int, b: int| 0 <= a < i && 0 <= b < cols ==> t@.cells[a][b] == self@.cells[b][a],
                    forall|b: int| 0 <= b < j ==> t@.cells[i as int][b] == self@.cells[b][i as int],
                decreases cols - j,
            {
                t.set(i, j, self.get(j, i));
                j += 1;
            }
            i += 1;
        }
        proof {
            lemma_grid_eq(t@, self@.transpose());
        }
        t
    }

    /// A copy with storage of its own.
    pub fn clone(&self) -> (m: Matrix<T>)
        requires
            self.wf(),
        ensures
            m.wf(),
            m@ == self@,
            m.capacity() == self.capacity(),
            forall|s: int| 0 <= s < self.capacity() ==> m.slot(s) == self.slot(s),
    {
        let mut data: Vec<[T; CHUNK_SIZE]> = Vec::new();
        let mut n: usize = 0;
        while n < self.data.len()
            invariant
                n <= self.data@.len(),
                data@.len() == n,
                forall|c: int| 0 <= c < n ==> data@[c] == self.data@[c],
            decreases self.data@.len() - n,
        {
            let chunk: [T; CHUNK_SIZE] = self.data[n];
            data.push(chunk);
            n += 1;
        }
        let m = Matrix { rows: self.rows, cols: self.cols, data };
        proof {
            assert(m.data@ =~= self.data@);
            assert forall|s: int| 0 <= s < self.capacity() implies m.slot(s) == self.slot(s) by {
                assert(0 <= s / 64 < self.data@.len());
            }
            lemma_grid_eq(m@, self@);
        }
        m
    }
}

impl<T: Scalar> Matrix<T> {
    /// A `rows` by `cols` matrix of zeros.
    pub fn new(rows: usize, cols: usize) -> (m: Self)
        requires
            fits(rows as nat, cols as nat),
        ensures
            m.wf(),
            m@.rows == rows,
            m@.cols == cols,
            deterministic::<T>() ==> m@ == Grid::filled(rows as nat, cols as nat, zero::<T>()),
            deterministic::<T>() ==> forall|s: int|
                0 <= s < m.capacity() ==> m.slot(s) == zero::<T>(),
    {
        Matrix::filled(rows, cols, T::from_u64(0))
    }

    /// A copy of the columns `start .. start + width`.
    #[verifier::loop_isolation(false)]
    pub fn columns(&self, start: usize, width: usize) -> (result: Matrix<T>)
        requires
            self.wf(),
            start + width <= self@.cols,
        ensures
            result.wf(),
            result@ == self@.columns(start as int, width as nat),
    {
        let rows = self.rows;
        proof {
            assert(rows * width <= rows * self.cols) by (nonlinear_arith)
                requires
                    width <= self.cols,
                    0 <= rows,
            ;
        }
        let mut result = Matrix::new(rows, width);
        let ghost target = self@.columns(start as int, width as nat);
        let mut i: usize = 0;
        while i < rows
            invariant
                result.wf(),
                result@.rows == rows,
                result@.cols == width,
                i <= rows,
                forall|a: int, b: int|
                    0 <= a < i && 0 <= b < width ==> result@.cells[a][b] == target.cells[a][b],
            decreases rows - i,
        {
            let mut j: usize = 0;
            while j < width
                invariant
                    result.wf(),
                    result@.rows == rows,
                    result@.cols == width,
                    i < rows,
                    j <= width,
                    forall|a: int, b: int|
                        0 <= a < i && 0 <= b < width ==> result@.cells[a][b] == target.cells[a][b],
                    forall|b: int|
                        0 <= b < j ==> result@.cells[i as int][b] == target.cells[i as int][b],
                decreases width - j,
            {
                result.set(i, j, self.get(i, start + j));
                j += 1;
            }
            i += 1;
        }
        proof {
            lemma_grid_eq(result@, target);
        }
        result
    }

    /// The matrix product of `self` and `other`.
    #[verifier::loop_isolation(false)]
    pub fn dot(&self, other: &Matrix<T>) -> (result: Matrix<T>)
        requires
            self.wf(),
            other.wf(),
            self@.cols == other@.rows,
            fits(self@.rows, other@.cols),
        ensures
            result.wf(),
            result@.rows == self@.rows,
            result@.cols == other@.cols,
            deterministic::<T>() ==> result@ == self@.product(other@),
    {
        let rows = self.rows;
        let cols = other.cols;
        let mut result = Matrix::new(rows, cols);
        let ghost target = self@.product(other@);
        let mut i: usize = 0;
        while i < rows
            invariant
                result.wf(),
                result@.rows == rows,
                result@.cols == cols,
                i <= rows,
                deterministic::<T>() ==> forall|a: int, b: int|
                    0 <= a < i && 0 <= b < cols ==> result@.cells[a][b] == target.cells[a][b],
            decreases rows - i,
        {
            let mut j: usize = 0;
            while j < cols
                invariant
                    result.wf(),
                    result@.rows == rows,
                    result@.cols == cols,
                    i < rows,
                    j <= cols,
                    deterministic::<T>() ==> forall|a: int, b: int|
                        0 <= a < i && 0 <= b < cols ==> result@.cells[a][b] == target.cells[a][b],
                    deterministic::<T>() ==> forall|b: int|
                        0 <= b < j ==> result@.cells[i as int][b] == target.cells[i as int][b],
                decreases cols - j,
            {
                let mut total = T::from_u64(0);
                let mut k: usize = 0;
                while k < self.cols
                    invariant
                        k <= self.cols,
                        deterministic::<T>() ==> total == dot_from(
                            zero::<T>(),
                            self@.cells[i as int],
                            other@.col(j as int),
                            k as nat,
                        ),
                    decreases self.cols - k,
                {
                    total = total.plus(self.get(i, k).times(other.get(k, j)));
                    k += 1;
                }
                result.set(i, j, total);
                j += 1;
            }
            i += 1;
        }
        proof {
            if deterministic::<T>() {
                lemma_grid_eq(result@, target);
            }
        }
        result
    }

    /// The sum of `self` and `other`, cell by cell.
    #[verifier::loop_isolation(false)]
    pub fn add(&self, other: &Matrix<T>) -> (result: Matrix<T>)
        requires
            self.wf(),
            other.wf(),
            self@.same_shape(other@),
        ensures
            result.wf(),
            result@.same_shape(self@),
            deterministic::<T>() ==> result@ == self@.plus(other@),
    {
        let rows = self.rows;
        let cols = self.cols;
        let mut result = Matrix::new(rows, cols);
        let ghost target = self@.plus(other@);
        let mut i: usize = 0;
        while i < rows
            invariant
                result.wf(),
                result@.rows == rows,
                result@.cols == cols,
                i <= rows,
                deterministic::<T>() ==> forall|a: int, b: int|
                    0 <= a < i && 0 <= b < cols ==> result@.cells[a][b] == target.cells[a][b],
            decreases rows - i,
        {
            let mut j: usize = 0;
            while j < cols
                invariant
                    result.wf(),
                    result@.rows == rows,
                    result@.cols == cols,
                    i < rows,
                    j <= cols,
                    deterministic::<T>() ==> forall|a: int, b: int|
                        0 <= a < i && 0 <= b < cols ==> result@.cells[a][b] == target.cells[a][b],
                    deterministic::<T>() ==> forall|b: int|
                        0 <= b < j ==> result@.cells[i as int][b] == target.cells[i as int][b],
                decreases cols - j,
            {
                result.set(i, j, self.get(i, j).plus(other.get(i, j)));
                j += 1;
            }
            i += 1;
        }
        proof {
            if deterministic::<T>() {
                lemma_grid_eq(result@, target);
            }
        }
        result
    }

    /// The difference of `self` and `other`, cell by cell.
    #[verifier::loop_isolation(false)]
    pub fn subtract(&self, other: &Matrix<T>) -> (result: Matrix<T>)
        requires
            self.wf(),
            other.wf(),
            self@.same_shape(other@),
        ensures
            result.wf(),
            result@.same_shape(self@),
            deterministic::<T>() ==> result@ == self@.minus(other@),
    {
        let rows = self.rows;
        let cols = self.cols;
        let mut result = Matrix::new(rows, cols);
        let ghost target = self@.minus(other@);
        let mut i: usize = 0;
        while i < rows
            invariant
                result.wf(),
                result@.rows == rows,
                result@.cols == cols,
                i <= rows,
                deterministic::<T>() ==> forall|a: int, b: int|
                    0 <= a < i && 0 <= b < cols ==> result@.cells[a][b] == target.cells[a][b],
            decreases rows - i,
        {
            let mut j: usize = 0;
            while j < cols
                invariant
                    result.wf(),
                    result@.rows == rows,
                    result@.cols == cols,
                    i < rows,
                    j <= cols,
                    deterministic::<T>() ==> forall|a: int, b: int|
                        0 <= a < i && 0 <= b < cols ==> result@.cells[a][b] == target.cells[a][b],
                    deterministic::<T>() ==> forall|b: int|
                        0 <= b < j ==> result@.cells[i as int][b] == target.cells[i as int][b],
                decreases cols - j,
            {
                result.set(i, j, self.get(i, j).minus(other.get(i, j)));
                j += 1;
            }
            i += 1;
        }
        proof {
            if deterministic::<T>() {
                lemma_grid_eq(result@, target);
            }
        }
        result
    }

    /// Every cell of `self` times `scalar`.
    #[verifier::loop_isolation(false)]
    pub fn mul_scalar(&self, scalar: T) -> (result: Matrix<T>)
        requires
            self.wf(),
        ensures
            result.wf(),
            result@.same_shape(self@),
            deterministic::<T>() ==> result@ == self@.scaled(scalar),
    {
        let rows = self.rows;
        let cols = self.cols;
        let mut result = Matrix::new(rows, cols);
        let ghost target = self@.scaled(scalar);
        let mut i: usize = 0;
        while i < rows
            invariant
                result.wf(),
                result@.rows == rows,
                result@.cols == cols,
                i <= rows,
                deterministic::<T>() ==> forall|a: int, b: int|
                    0 <= a < i && 0 <= b < cols ==> result@.cells[a][b] == target.cells[a][b],
            decreases rows - i,
        {
            let mut j: usize = 0;
            while j < cols
                invariant
                    result.wf(),
                    result@.rows == rows,
                    result@.cols == cols,
                    i < rows,
                    j <= cols,
                    deterministic::<T>() ==> forall|a: int, b: int|
                        0 <= a < i && 0 <= b < cols ==> result@.cells[a][b] == target.cells[a][b],
                    deterministic::<T>() ==> forall|b: int|
                        0 <= b < j ==> result@.cells[i as int][b] == target.cells[i as int][b],
                decreases cols - j,
            {
                result.set(i, j, self.get(i, j).times(scalar));
                j += 1;
            }
            i += 1;
        }
        proof {
            if deterministic::<T>() {
                lemma_grid_eq(result@, target);
            }
        }
        result
    }
}

} // verus!
