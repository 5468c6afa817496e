use transformer::numeric::{argmax, exp, ln, softmax};
use transformer::scalar::Scalar;

#[derive(Clone, Copy, Debug, PartialEq)]
struct Real(f64);

impl Scalar for Real {
    fn from_u64(n: u64) -> Self {
        Real(n as f64)
    }

    fn plus(self, rhs: Self) -> Self {
        Real(self.0 + rhs.0)
    }

    fn minus(self, rhs: Self) -> Self {
        Real(self.0 - rhs.0)
    }

    fn times(self, rhs: Self) -> Self {
        Real(self.0 * rhs.0)
    }

    fn over(self, rhs: Self) -> Self {
        Real(self.0 / rhs.0)
    }

    fn sqrt(self) -> Self {
        Real(self.0.sqrt())
    }

    fn exp(self) -> Self {
        Real(self.0.exp())
    }

    fn ln(self) -> Self {
        Real(self.0.ln())
    }

    fn sin(self) -> Self {
        Real(self.0.sin())
    }

    fn cos(self) -> Self {
        Real(self.0.cos())
    }

    fn powf(self, exponent: Self) -> Self {
        Real(self.0.powf(exponent.0))
    }

    fn exceeds(self, rhs: Self) -> bool {
        self.0 > rhs.0
    }
}

fn reals(values: &[f64]) -> Vec<Real> {
    values.iter().map(|&x| Real(x)).collect()
}

#[test]
fn softmax_of_known_values() {
    let p = softmax(&reals(&[1.0, 2.0, 3.0]));
    let expected = [0.09003057317038046, 0.24472847105479764, 0.6652409557748218];
    for i in 0..3 {
        assert!((p[i].0 - expected[i]).abs() < 1e-12);
    }
    let p = softmax(&reals(&[-1.5, 0.25, 0.25, -3.0]));
    let expected = [0.07854018605188026, 0.4519675648281381, 0.4519675648281381, 0.017524684291843517];
    for i in 0..4 {
        assert!((p[i].0 - expected[i]).abs() < 1e-12);
    }
}

#[test]
fn softmax_is_the_exponential_over_the_sum() {
    let p = softmax(&reals(&[0.0, 1.0]));
    let e = 1.0f64.exp();
    assert!((p[0].0 - 1.0 / (1.0 + e)).abs() < 1e-12);
    assert!((p[1].0 - e / (1.0 + e)).abs() < 1e-12);
}

#[test]
fn softmax_sums_to_one_and_is_not_negative() {
    for v in [
        vec![0.0],
        vec![1.0, 2.0, 3.0],
        vec![-1000.0, 0.0, 1000.0],
        vec![1e-9, -1e-9, 0.0, 5.5, -5.5],
        vec![700.0, 710.0, 720.0],
    ] {
        let p = softmax(&reals(&v));
        assert_eq!(p.len(), v.len());
        let mut total = 0.0;
        for x in &p {
            assert!(x.0 >= 0.0);
            total += x.0;
        }
        assert!((total - 1.0).abs() <= 1e-9);
    }
}

#[test]
fn softmax_does_not_change_when_a_constant_is_added() {
    let p = softmax(&reals(&[1.0, 2.0, 3.0]));
    let q = softmax(&reals(&[101.0, 102.0, 103.0]));
    let r = softmax(&reals(&[-49.0, -48.0, -47.0]));
    for i in 0..3 {
        assert!((p[i].0 - q[i].0).abs() < 1e-12);
        assert!((p[i].0 - r[i].0).abs() < 1e-12);
    }
}

#[test]
fn softmax_of_one_entry_is_one() {
    assert_eq!(softmax(&reals(&[-3.25])), vec![Real(1.0)]);
}

#[test]
fn softmax_of_equal_entries_is_uniform() {
    let p = softmax(&reals(&[2.0, 2.0, 2.0, 2.0]));
    assert_eq!(p, vec![Real(0.25); 4]);
}

#[test]
fn exp_adds_up_the_power_series() {
    assert_eq!(exp(Real(0.0)), Real(1.0));
    assert_eq!(exp(Real(1.0)), Real(2.71828182845823));
    assert_eq!(exp(Real(-2.5)), Real(0.0820849986278931));
    assert!((exp(Real(1.0)).0 - std::f64::consts::E).abs() < 1e-9);
    assert!((exp(Real(-2.5)).0 - (-2.5f64).exp()).abs() < 1e-9);
}

#[test]
fn exp_stops_after_ninety_nine_terms() {
    let Real(x) = exp(Real(50.0));
    assert_eq!(x, 5.184705526927941e+21);
    assert!(x < 50.0f64.exp());
}

#[test]
fn ln_adds_up_the_series() {
    assert_eq!(ln(Real(1.0)), Real(0.0));
    assert_eq!(ln(Real(2.0)), Real(0.6931471805498115));
    assert_eq!(ln(Real(0.5)), Real(-0.6931471805498115));
    assert!((ln(Real(2.0)).0 - std::f64::consts::LN_2).abs() < 1e-9);
}

#[test]
fn ln_stops_after_a_hundred_terms() {
    let Real(x) = ln(Real(100.0));
    assert_eq!(x, 4.601391825588797);
    assert!(x < 100.0f64.ln());
}

#[test]
fn argmax_finds_the_largest() {
    assert_eq!(argmax(&reals(&[0.1, 0.7, 0.2])), 1);
    assert_eq!(argmax(&reals(&[3.0])), 0);
    assert_eq!(argmax(&reals(&[-1.0, -2.0, -0.5])), 2);
}

#[test]
fn argmax_takes_the_first_of_equals() {
    assert_eq!(argmax(&reals(&[0.4, 0.4, 0.2])), 0);
    assert_eq!(argmax(&reals(&[0.1, 0.3, 0.3, 0.3])), 1);
}
