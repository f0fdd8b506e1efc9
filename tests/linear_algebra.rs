use qlab::linear_algebra::tridiagonal_matrix::{MatrixValidationError, TridiagonalMatrix};
use qlab::value::Value;

#[derive(Clone, Copy, Debug, PartialEq)]
struct F(f64);

impl Value for F {
    fn plus(self, rhs: Self) -> Self {
        F(self.0 + rhs.0)
    }
    fn minus(self, rhs: Self) -> Self {
        F(self.0 - rhs.0)
    }
    fn times(self, rhs: Self) -> Self {
        F(self.0 * rhs.0)
    }
    fn over(self, rhs: Self) -> Self {
        F(self.0 / rhs.0)
    }
    fn negated(self) -> Self {
        F(-self.0)
    }
    fn at_most(self, rhs: Self) -> bool {
        self.0 <= rhs.0
    }
    fn exp(self) -> Self {
        F(self.0.exp())
    }
    fn from_i32(n: i32) -> Self {
        F(n as f64)
    }
}

fn v(xs: &[f64]) -> Vec<F> {
    xs.iter().map(|&x| F(x)).collect()
}

struct Lcg(u64);

impl Lcg {
    fn next(&mut self) -> f64 {
        self.0 = self.0.wrapping_mul(6364136223846793005).wrapping_add(1442695040888963407);
        ((self.0 >> 11) as f64) / ((1u64 << 53) as f64) * 2.0 - 1.0
    }
}

#[test]
fn shape_errors() {
    assert!(matches!(
        TridiagonalMatrix::try_new(v(&[1.0]), v(&[1.0, 2.0]), v(&[])),
        Err(MatrixValidationError::MatrixShapeError)
    ));
    assert!(matches!(
        TridiagonalMatrix::try_new(v(&[1.0, 2.0]), v(&[1.0, 2.0]), v(&[1.0, 2.0])),
        Err(MatrixValidationError::MatrixShapeError)
    ));
    assert!(matches!(
        TridiagonalMatrix::try_new(v(&[]), v(&[]), v(&[])),
        Err(MatrixValidationError::MatrixShapeError)
    ));
    assert!(TridiagonalMatrix::try_new(v(&[]), v(&[2.0]), v(&[])).is_ok());
}

#[test]
fn solve_size_one() {
    let m = TridiagonalMatrix::try_new(v(&[]), v(&[4.0]), v(&[])).unwrap();
    assert_eq!(m.solve(&v(&[2.0])), v(&[0.5]));
}

#[test]
fn solve_known_system() {
    // [2 1 0; 1 2 1; 0 1 2] x = [4 8 8] has x = [1 2 3].
    let m = TridiagonalMatrix::try_new(v(&[1.0, 1.0]), v(&[2.0, 2.0, 2.0]), v(&[1.0, 1.0])).unwrap();
    let x = m.solve(&v(&[4.0, 8.0, 8.0]));
    for (a, b) in x.iter().zip([1.0, 2.0, 3.0]) {
        assert!((a.0 - b).abs() < 1e-12);
    }
}

#[test]
fn mul_checks_length() {
    let m = TridiagonalMatrix::try_new(v(&[1.0]), v(&[2.0, 3.0]), v(&[4.0])).unwrap();
    assert!(m.mul(v(&[1.0])).is_none());
    let m = TridiagonalMatrix::try_new(v(&[1.0]), v(&[2.0, 3.0]), v(&[4.0])).unwrap();
    assert_eq!(m.mul(v(&[1.0, 1.0])).unwrap(), v(&[3.0, 7.0]));
}

#[test]
fn solve_then_multiply_round_trips() {
    let mut rng = Lcg(42);
    for n in 1..=50usize {
        let lower: Vec<f64> = (0..n - 1).map(|_| rng.next()).collect();
        let upper: Vec<f64> = (0..n - 1).map(|_| rng.next()).collect();
        let diag: Vec<f64> = (0..n)
            .map(|i| {
                let l = if i > 0 { lower[i - 1].abs() } else { 0.0 };
                let u = if i + 1 < n { upper[i].abs() } else { 0.0 };
                l + u + 1.0 + rng.next().abs()
            })
            .collect();
        let b: Vec<f64> = (0..n).map(|_| rng.next() * 10.0).collect();
        let m = TridiagonalMatrix::try_new(v(&upper), v(&diag), v(&lower)).unwrap();
        let x = m.solve(&v(&b));
        let m = TridiagonalMatrix::try_new(v(&upper), v(&diag), v(&lower)).unwrap();
        let back = m.mul(x).unwrap();
        for (got, want) in back.iter().zip(b.iter()) {
            assert!((got.0 - want).abs() < 1e-9);
        }
    }
}
