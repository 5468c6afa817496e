use transformer::matrix::{can_store, slots_needed, Matrix, CHUNK_SIZE};
use transformer::rng::{initialize_weights, Rng};
use transformer::scalar::Scalar;

#[derive(Clone, Copy, Debug, PartialEq)]
struct Real(f64);

impl Scalar for Real {
    fn from_u64(n: u64) -> Self {
        Real(n as f64)
    }

    fn plus(self, rhs: Self) -> Self {
        Real(self.0 + rhs.0)
    }

    fn minus(self, rhs: Self) -> Self {
        Real(self.0 - rhs.0)
    }

    fn times(self, rhs: Self) -> Self {
        Real(self.0 * rhs.0)
    }

    fn over(self, rhs: Self) -> Self {
        Real(self.0 / rhs.0)
    }

    fn sqrt(self) -> Self {
        Real(self.0.sqrt())
    }

    fn exp(self) -> Self {
        Real(self.0.exp())
    }

    fn ln(self) -> Self {
        Real(self.0.ln())
    }

    fn sin(self) -> Self {
        Real(self.0.sin())
    }

    fn cos(self) -> Self {
        Real(self.0.cos())
    }

    fn powf(self, exponent: Self) -> Self {
        Real(self.0.powf(exponent.0))
    }

    fn exceeds(self, rhs: Self) -> bool {
        self.0 > rhs.0
    }
}

fn matrix_of<const R: usize, const C: usize>(cells: [[f64; C]; R]) -> Matrix<Real> {
    let mut m = Matrix::filled(R, C, Real(0.0));
    for i in 0..R {
        for j in 0..C {
            m.set(i, j, Real(cells[i][j]));
        }
    }
    m
}

fn close(a: f64, b: f64) -> bool {
    (a - b).abs() <= 1e-9 * (1.0 + a.abs().max(b.abs()))
}

fn assert_cells<const R: usize, const C: usize>(m: &Matrix<Real>, expected: [[f64; C]; R]) {
    assert_eq!(m.rows(), R);
    assert_eq!(m.cols(), C);
    for i in 0..R {
        for j in 0..C {
            let Real(x) = m.get(i, j);
            assert!(close(x, expected[i][j]), "cell ({}, {}): {} is not {}", i, j, x, expected[i][j]);
        }
    }
}

fn drawn(rows: usize, cols: usize, rng: &mut Rng) -> Matrix<Real> {
    let mut m = Matrix::filled(rows, cols, Real(0.0));
    initialize_weights(&mut m, rng);
    m
}

#[test]
fn new_matrix_is_zero() {
    let m: Matrix<Real> = Matrix::new(3, 70);
    assert_eq!(m.rows(), 3);
    assert_eq!(m.cols(), 70);
    for i in 0..3 {
        for j in 0..70 {
            assert_eq!(m.get(i, j), Real(0.0));
        }
    }
}

#[test]
fn empty_matrices_have_no_storage() {
    let m: Matrix<Real> = Matrix::new(0, 5);
    assert_eq!((m.rows(), m.cols(), m.slots()), (0, 5, 0));
    let m: Matrix<Real> = Matrix::new(5, 0);
    assert_eq!((m.rows(), m.cols(), m.slots()), (5, 0, 0));
}

#[test]
fn storage_comes_in_whole_chunks() {
    assert_eq!(CHUNK_SIZE, 64);
    assert_eq!(Matrix::<Real>::new(1, 1).slots(), 64);
    assert_eq!(Matrix::<Real>::new(8, 8).slots(), 64);
    assert_eq!(Matrix::<Real>::new(5, 13).slots(), 128);
}

#[test]
fn can_store_tells_whether_the_cells_and_a_chunk_can_be_counted() {
    assert!(can_store(0, 0));
    assert!(can_store(3, 70));
    assert!(can_store(usize::MAX, 0));
    assert!(can_store(1, usize::MAX - 64));
    assert!(!can_store(1, usize::MAX - 63));
    assert!(!can_store(usize::MAX, 2));
    assert!(!can_store(1 << (usize::BITS / 2), 1 << (usize::BITS / 2)));
}

#[test]
fn slots_needed_rounds_up_to_whole_chunks() {
    assert_eq!(slots_needed(0, 9), 0);
    assert_eq!(slots_needed(1, 1), 64);
    assert_eq!(slots_needed(8, 8), 64);
    assert_eq!(slots_needed(5, 13), 128);
    assert_eq!(slots_needed(5, 13), Matrix::<Real>::new(5, 13).slots());
}

#[test]
fn set_then_get_returns_the_value() {
    let mut m: Matrix<Real> = Matrix::new(9, 11);
    for i in 0..9 {
        for j in 0..11 {
            m.set(i, j, Real((i * 100 + j) as f64 + 0.5));
        }
    }
    for i in 0..9 {
        for j in 0..11 {
            assert_eq!(m.get(i, j), Real((i * 100 + j) as f64 + 0.5));
        }
    }
}

#[test]
fn set_leaves_the_other_cells_alone() {
    let mut m = matrix_of([[1.0, 2.0, 3.0], [4.0, 5.0, 6.0]]);
    m.set(1, 0, Real(-7.0));
    assert_cells(&m, [[1.0, 2.0, 3.0], [-7.0, 5.0, 6.0]]);
}

#[test]
fn dot_multiplies_rows_by_columns() {
    let a = matrix_of([[1.0, 2.0], [3.0, 4.0]]);
    let b = matrix_of([[5.0, 6.0], [7.0, 8.0]]);
    let c = a.dot(&b);
    assert_eq!(c.get(0, 0), Real(19.0));
    assert_eq!(c.get(0, 1), Real(22.0));
    assert_eq!(c.get(1, 0), Real(43.0));
    assert_eq!(c.get(1, 1), Real(50.0));
}

#[test]
fn dot_has_the_rows_of_the_left_and_the_columns_of_the_right() {
    let a: Matrix<Real> = Matrix::new(2, 3);
    let b: Matrix<Real> = Matrix::new(3, 4);
    let c = a.dot(&b);
    assert_eq!((c.rows(), c.cols()), (2, 4));
    let d: Matrix<Real> = Matrix::new(0, 3);
    let e = d.dot(&b);
    assert_eq!((e.rows(), e.cols()), (0, 4));
}

#[test]
fn dot_is_associative_within_tolerance() {
    let mut rng = Rng::new(99);
    let a = drawn(3, 4, &mut rng);
    let b = drawn(4, 5, &mut rng);
    let c = drawn(5, 2, &mut rng);
    let left = a.dot(&b).dot(&c);
    let right = a.dot(&b.dot(&c));
    assert_eq!((left.rows(), left.cols()), (3, 2));
    for i in 0..3 {
        for j in 0..2 {
            assert!(close(left.get(i, j).0, right.get(i, j).0));
        }
    }
}

#[test]
fn add_and_subtract_work_cell_by_cell() {
    let a = matrix_of([[1.0, 2.5], [-3.0, 4.0]]);
    let b = matrix_of([[0.5, 0.5], [10.0, -4.0]]);
    let sum = a.add(&b);
    let difference = a.subtract(&b);
    assert_eq!(sum.get(0, 0), Real(1.5));
    assert_eq!(sum.get(0, 1), Real(3.0));
    assert_eq!(sum.get(1, 0), Real(7.0));
    assert_eq!(sum.get(1, 1), Real(0.0));
    assert_eq!(difference.get(0, 0), Real(0.5));
    assert_eq!(difference.get(0, 1), Real(2.0));
    assert_eq!(difference.get(1, 0), Real(-13.0));
    assert_eq!(difference.get(1, 1), Real(8.0));
}

#[test]
fn mul_scalar_scales_every_cell() {
    let a = matrix_of([[1.0, -2.0, 0.0]]);
    let b = a.mul_scalar(Real(-1.5));
    assert_eq!(b.get(0, 0), Real(-1.5));
    assert_eq!(b.get(0, 1), Real(3.0));
    assert_eq!(b.get(0, 2).0, 0.0);
}

#[test]
fn derived_matrices_leave_their_operands_alone() {
    let a = matrix_of([[1.0, 2.0], [3.0, 4.0]]);
    let b = matrix_of([[5.0, 6.0], [7.0, 8.0]]);
    let _ = (a.dot(&b), a.add(&b), a.subtract(&b), a.mul_scalar(Real(2.0)), a.transpose());
    assert_cells(&a, [[1.0, 2.0], [3.0, 4.0]]);
    assert_cells(&b, [[5.0, 6.0], [7.0, 8.0]]);
}

#[test]
fn transpose_exchanges_rows_and_columns() {
    let a = matrix_of([[1.0, 2.0, 3.0], [4.0, 5.0, 6.0]]);
    let t = a.transpose();
    assert_cells(&t, [[1.0, 4.0], [2.0, 5.0], [3.0, 6.0]]);
}

#[test]
fn transpose_twice_is_the_matrix_itself() {
    let mut rng = Rng::new(5);
    let a = drawn(7, 13, &mut rng);
    let back = a.transpose().transpose();
    assert_eq!((back.rows(), back.cols()), (7, 13));
    for i in 0..7 {
        for j in 0..13 {
            assert_eq!(back.get(i, j), a.get(i, j));
        }
    }
    let empty: Matrix<Real> = Matrix::new(0, 4);
    let t = empty.transpose();
    assert_eq!((t.rows(), t.cols()), (4, 0));
    let back = t.transpose();
    assert_eq!((back.rows(), back.cols()), (0, 4));
}

#[test]
fn clone_has_storage_of_its_own() {
    let a = matrix_of([[1.0, 2.0], [3.0, 4.0]]);
    let mut b = a.clone();
    b.set(0, 0, Real(9.0));
    assert_eq!(a.get(0, 0), Real(1.0));
    assert_cells(&b, [[9.0, 2.0], [3.0, 4.0]]);
}

#[test]
fn columns_copies_a_block() {
    let a = matrix_of([[1.0, 2.0, 3.0, 4.0], [5.0, 6.0, 7.0, 8.0]]);
    assert_cells(&a.columns(1, 2), [[2.0, 3.0], [6.0, 7.0]]);
    assert_cells(&a.columns(0, 4), [[1.0, 2.0, 3.0, 4.0], [5.0, 6.0, 7.0, 8.0]]);
    let none = a.columns(4, 0);
    assert_eq!((none.rows(), none.cols()), (2, 0));
}

#[test]
fn peek_reads_on_past_the_end_of_a_row() {
    let a = matrix_of([[1.0, 2.0], [3.0, 4.0]]);
    assert_eq!(a.peek(0, 1), Real(2.0));
    assert_eq!(a.peek(0, 2), Real(3.0));
    assert_eq!(a.peek(0, 3), Real(4.0));
    assert_eq!(a.peek(1, 2), Real(0.0));
}

#[test]
fn set_slot_writes_storage_in_row_major_order() {
    let mut a: Matrix<Real> = Matrix::new(2, 3);
    a.set_slot(4, Real(8.0));
    assert_eq!(a.get(1, 1), Real(8.0));
    a.set_slot(63, Real(1.0));
    assert_cells(&a, [[0.0, 0.0, 0.0], [0.0, 8.0, 0.0]]);
}
