use transformer::matrix::Matrix;
use transformer::rng::{initialize_weights, Rng, MULTIPLIER};
use transformer::scalar::Scalar;

#[derive(Clone, Copy, Debug, PartialEq)]
struct Real(f64);

impl Scalar for Real {
    fn from_u64(n: u64) -> Self {
        Real(n as f64)
    }

    fn plus(self, rhs: Self) -> Self {
        Real(self.0 + rhs.0)
    }

    fn minus(self, rhs: Self) -> Self {
        Real(self.0 - rhs.0)
    }

    fn times(self, rhs: Self) -> Self {
        Real(self.0 * rhs.0)
    }

    fn over(self, rhs: Self) -> Self {
        Real(self.0 / rhs.0)
    }

    fn sqrt(self) -> Self {
        Real(self.0.sqrt())
    }

    fn exp(self) -> Self {
        Real(self.0.exp())
    }

    fn ln(self) -> Self {
        Real(self.0.ln())
    }

    fn sin(self) -> Self {
        Real(self.0.sin())
    }

    fn cos(self) -> Self {
        Real(self.0.cos())
    }

    fn powf(self, exponent: Self) -> Self {
        Real(self.0.powf(exponent.0))
    }

    fn exceeds(self, rhs: Self) -> bool {
        self.0 > rhs.0
    }
}

fn close(a: f64, b: f64) -> bool {
    (a - b).abs() <= 1e-9 * (1.0 + a.abs().max(b.abs()))
}

fn assert_cells<const R: usize, const C: usize>(m: &Matrix<Real>, expected: [[f64; C]; R]) {
    assert_eq!(m.rows(), R);
    assert_eq!(m.cols(), C);
    for i in 0..R {
        for j in 0..C {
            let Real(x) = m.get(i, j);
            assert!(close(x, expected[i][j]), "cell ({}, {}): {} is not {}", i, j, x, expected[i][j]);
        }
    }
}

#[test]
fn next_steps_and_scrambles() {
    let mut rng = Rng::new(12345);
    let state = 12345u64.wrapping_mul(MULTIPLIER).wrapping_add(1);
    assert_eq!(rng.next(), (state >> 33) ^ state);
    let state = state.wrapping_mul(MULTIPLIER).wrapping_add(1);
    assert_eq!(rng.next(), (state >> 33) ^ state);
}

#[test]
fn next_gives_the_known_stream() {
    let mut rng = Rng::new(12345);
    assert_eq!(rng.next(), 578673459612233535u64);
    assert_eq!(rng.next(), 9383619855849242698u64);
    assert_eq!(rng.next(), 608924598492238205u64);
}

#[test]
fn next_wraps_around() {
    let mut rng = Rng::new(u64::MAX);
    let state = u64::MAX.wrapping_mul(MULTIPLIER).wrapping_add(1);
    assert_eq!(state, 12082607849862758612);
    assert_eq!(rng.next(), (state >> 33) ^ state);
}

#[test]
fn equal_seeds_give_equal_streams() {
    let mut a = Rng::new(42);
    let mut b = Rng::new(42);
    for _ in 0..100 {
        assert_eq!(a.next(), b.next());
    }
}

#[test]
fn next_f64_is_the_draw_over_the_largest_draw() {
    let mut rng = Rng::new(12345);
    let Real(x) = rng.next_f64::<Real>();
    assert_eq!(x, 0.03136995110356432);
    assert_eq!(x, 578673459612233535u64 as f64 / u64::MAX as f64);
    let mut rng = Rng::new(1);
    for _ in 0..1000 {
        let Real(x) = rng.next_f64::<Real>();
        assert!((0.0..=1.0).contains(&x));
    }
}

#[test]
fn weights_are_drawn_slot_by_slot() {
    let mut rng = Rng::new(12345);
    let mut m: Matrix<Real> = Matrix::new(2, 2);
    initialize_weights(&mut m, &mut rng);
    assert_cells(&m, [
        [-0.9372600977928713, 0.01737410334898648],
        [-0.9339802627434852, -0.5394670482455657],
    ]);
    let mut again = Rng::new(12345);
    for i in 0..2 {
        for j in 0..2 {
            let Real(x) = again.next_f64::<Real>();
            assert_eq!(m.get(i, j), Real(x * 2.0 - 1.0));
        }
    }
}

#[test]
fn weights_take_a_draw_for_every_slot_of_storage() {
    let mut rng = Rng::new(12345);
    let mut m: Matrix<Real> = Matrix::new(2, 2);
    initialize_weights(&mut m, &mut rng);
    assert_eq!(rng.next(), 9029320408750807631u64);

    let mut rng = Rng::new(12345);
    let mut m: Matrix<Real> = Matrix::new(9, 8);
    initialize_weights(&mut m, &mut rng);
    assert_eq!(m.get(8, 7), Real(-0.8525665646252063));
    assert_eq!(rng.next(), 16108794680639149362u64);

    let mut rng = Rng::new(12345);
    let mut m: Matrix<Real> = Matrix::new(0, 3);
    initialize_weights(&mut m, &mut rng);
    assert_eq!(rng.next(), 578673459612233535u64);
}

#[test]
fn weights_lie_between_minus_one_and_one() {
    let mut rng = Rng::new(2024);
    let mut m: Matrix<Real> = Matrix::new(20, 20);
    initialize_weights(&mut m, &mut rng);
    for i in 0..20 {
        for j in 0..20 {
            let Real(w) = m.get(i, j);
            assert!((-1.0..=1.0).contains(&w));
        }
    }
}
