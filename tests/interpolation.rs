use qlab::error::InterpolationError;
use qlab::interpolation::catmull_rom::CatmullRom;
use qlab::interpolation::hermite::Hermite;
use qlab::interpolation::linear::Linear;
use qlab::interpolation::natural_cubic::NaturalCubic;
use qlab::interpolation::Interpolator;
use qlab::value::Value;

#[derive(Clone, Copy, Debug, PartialEq)]
struct F(f64);

impl Value for F {
    fn plus(self, rhs: Self) -> Self {
        F(self.0 + rhs.0)
    }
    fn minus(self, rhs: Self) -> Self {
        F(self.0 - rhs.0)
    }
    fn times(self, rhs: Self) -> Self {
        F(self.0 * rhs.0)
    }
    fn over(self, rhs: Self) -> Self {
        F(self.0 / rhs.0)
    }
    fn negated(self) -> Self {
        F(-self.0)
    }
    fn at_most(self, rhs: Self) -> bool {
        self.0 <= rhs.0
    }
    fn exp(self) -> Self {
        F(self.0.exp())
    }
    fn from_i32(n: i32) -> Self {
        F(n as f64)
    }
}

fn pts(raw: &[(f64, f64)]) -> Vec<(F, F)> {
    raw.iter().map(|&(x, y)| (F(x), F(y))).collect()
}

#[test]
fn catmull_rom_test_f64() {
    let points = pts(&[(0.0, 1.0), (0.5, 0.5), (1.0, 0.0)]);
    let interpolator = CatmullRom::default().try_fit(&points).unwrap();
    let val = interpolator.try_value(F(0.75)).unwrap().0;
    assert!((val - 0.25_f64).abs() < 1e-9);
}

#[test]
fn natural_cubic_test_f64() {
    let points = pts(&[(0.0, 1.0), (0.5, 0.5), (1.0, 0.0)]);
    let interpolator = NaturalCubic::default().try_fit(&points).unwrap();
    let val = interpolator.try_value(F(0.75)).unwrap().0;
    assert!((0.25_f64 - val) / 0.25_f64 < f64::EPSILON);
}

#[test]
fn natural_cubic_straight_line_within_tolerance() {
    let points = pts(&[(0.0, 1.0), (0.5, 0.5), (1.0, 0.0)]);
    let interpolator = NaturalCubic::default().try_fit(&points).unwrap();
    let val = interpolator.try_value(F(0.75)).unwrap().0;
    assert!((val - 0.25).abs() < 1e-9);
}

#[test]
fn linear_scenario_interior_clamp_and_lower_bound() {
    let points = pts(&[(1.0, 2.0), (3.0, 4.0)]);
    let linear = Linear::default().try_fit(&points).unwrap();
    assert_eq!(linear.try_value(F(2.0)).unwrap(), F(3.0));
    assert_eq!(linear.try_value(F(5.0)).unwrap(), F(4.0));
    assert_eq!(linear.try_value(F(3.0)).unwrap(), F(4.0));
    assert_eq!(
        linear.try_value(F(0.5)),
        Err(InterpolationError::OutOfLowerBound(F(0.5)))
    );
}

#[test]
fn linear_new_is_empty_and_fails() {
    let linear: Linear<F> = Linear::new();
    assert_eq!(
        linear.try_value(F(1.0)),
        Err(InterpolationError::InsufficientPointsError(0))
    );
}

#[test]
fn linear_reevaluation_and_monotonic() {
    let points = pts(&[(0.0, 0.0), (1.0, 1.0), (2.0, 1.5), (4.0, 3.0)]);
    let linear = Linear::default().try_fit(&points).unwrap();
    let mut prev = linear.try_value(F(0.0)).unwrap();
    let mut x = 0.0;
    while x < 5.0 {
        let a = linear.try_value(F(x)).unwrap();
        let b = linear.try_value(F(x)).unwrap();
        assert_eq!(a, b);
        assert!(prev.0 <= a.0);
        prev = a;
        x += 0.125;
    }
}

#[test]
fn knots_reproduced_by_every_method() {
    let raw = [(0.0, 1.0), (0.3, -2.0), (1.1, 0.5), (2.0, 4.0), (2.5, 3.0)];
    let points = pts(&raw);
    let linear = Linear::default().try_fit(&points).unwrap();
    let cubic = NaturalCubic::default().try_fit(&points).unwrap();
    let catmull = CatmullRom::default().try_fit(&points).unwrap();
    let triples: Vec<(F, F, F)> = raw.iter().map(|&(x, y)| (F(x), F(y), F(0.7))).collect();
    let hermite = Hermite::try_new(&triples).unwrap();
    for (i, &(x, y)) in raw.iter().enumerate() {
        assert_eq!(linear.try_value(F(x)).unwrap(), F(y));
        if i + 1 < raw.len() {
            assert!((cubic.try_value(F(x)).unwrap().0 - y).abs() < 1e-12);
            assert_eq!(catmull.try_value(F(x)).unwrap(), F(y));
            assert_eq!(hermite.try_value(F(x)).unwrap(), F(y));
        }
    }
}

#[test]
fn splines_fail_outside_the_knots() {
    let raw = [(0.0, 1.0), (1.0, 2.0), (2.0, 0.0)];
    let points = pts(&raw);
    let cubic = NaturalCubic::default().try_fit(&points).unwrap();
    let catmull = CatmullRom::default().try_fit(&points).unwrap();
    let triples: Vec<(F, F, F)> = raw.iter().map(|&(x, y)| (F(x), F(y), F(1.0))).collect();
    let hermite = Hermite::try_new(&triples).unwrap();
    let linear = Linear::default().try_fit(&points).unwrap();
    for x in [-0.5, -1e-9] {
        let lower = Err(InterpolationError::OutOfLowerBound(F(x)));
        assert_eq!(cubic.try_value(F(x)), lower);
        assert_eq!(catmull.try_value(F(x)), lower);
        assert_eq!(hermite.try_value(F(x)), lower);
        assert_eq!(linear.try_value(F(x)), lower);
    }
    for x in [2.0, 3.5] {
        let upper = Err(InterpolationError::OutOfUpperBound(F(x)));
        assert_eq!(cubic.try_value(F(x)), upper);
        assert_eq!(catmull.try_value(F(x)), upper);
        assert_eq!(hermite.try_value(F(x)), upper);
        assert_eq!(linear.try_value(F(x)).unwrap(), F(0.0));
    }
}

#[test]
fn too_few_knots_fail() {
    let one = pts(&[(0.0, 1.0)]);
    let two = pts(&[(0.0, 1.0), (1.0, 2.0)]);
    assert_eq!(
        NaturalCubic::default().try_fit(&one).err(),
        Some(InterpolationError::InsufficientPointsError(1))
    );
    assert_eq!(
        NaturalCubic::default().try_fit(&two).err(),
        Some(InterpolationError::InsufficientPointsError(2))
    );
    assert_eq!(
        CatmullRom::default().try_fit(&two).err(),
        Some(InterpolationError::InsufficientPointsError(2))
    );
    assert_eq!(
        Linear::default().try_fit(&one).err(),
        Some(InterpolationError::InsufficientPointsError(1))
    );
    assert_eq!(
        Linear::<F>::default().try_fit(&[]).err(),
        Some(InterpolationError::InsufficientPointsError(0))
    );
    let triples = vec![(F(0.0), F(1.0), F(0.0))];
    assert_eq!(
        Hermite::try_new(&triples).err(),
        Some(InterpolationError::InsufficientPointsError(1))
    );
}

#[test]
fn decreasing_abscissas_fail() {
    let raw = [(0.0, 1.0), (2.0, 2.0), (1.0, 0.0), (3.0, 1.0)];
    let points = pts(&raw);
    assert_eq!(
        Linear::default().try_fit(&points).err(),
        Some(InterpolationError::PointOrderError)
    );
    assert_eq!(
        NaturalCubic::default().try_fit(&points).err(),
        Some(InterpolationError::PointOrderError)
    );
    assert_eq!(
        CatmullRom::default().try_fit(&points).err(),
        Some(InterpolationError::PointOrderError)
    );
    let triples: Vec<(F, F, F)> = raw.iter().map(|&(x, y)| (F(x), F(y), F(0.0))).collect();
    assert_eq!(
        Hermite::try_new(&triples).err(),
        Some(InterpolationError::PointOrderError)
    );
}

#[test]
fn equal_abscissas_are_tolerated() {
    let points = pts(&[(0.0, 1.0), (1.0, 2.0), (1.0, 3.0), (2.0, 4.0)]);
    let linear = Linear::default().try_fit(&points).unwrap();
    assert_eq!(linear.try_value(F(1.0)).unwrap(), F(3.0));
    assert_eq!(linear.try_value(F(1.5)).unwrap(), F(3.5));
}

#[test]
fn exact_hit_resolves_to_interval_starting_there() {
    let points = pts(&[(0.0, 0.0), (1.0, 10.0), (2.0, 0.0)]);
    let linear = Linear::default().try_fit(&points).unwrap();
    assert_eq!(linear.try_value(F(1.0)).unwrap(), F(10.0));
    assert_eq!(linear.try_value(F(0.5)).unwrap(), F(5.0));
    assert_eq!(linear.try_value(F(1.5)).unwrap(), F(5.0));
}

#[test]
fn hermite_formula_values() {
    // y = x^2 has slope 2x; the Hermite cubic reproduces it exactly.
    let triples: Vec<(F, F, F)> = [0.0, 1.0, 2.0, 3.0]
        .iter()
        .map(|&x: &f64| (F(x), F(x * x), F(2.0 * x)))
        .collect();
    let hermite = Hermite::try_new(&triples).unwrap();
    assert!((hermite.try_value(F(1.5)).unwrap().0 - 2.25).abs() < 1e-12);
    assert!((hermite.try_value(F(0.25)).unwrap().0 - 0.0625).abs() < 1e-12);
}

#[test]
fn catmull_rom_interior_and_first_interval() {
    let points = pts(&[(0.0, 0.0), (1.0, 1.0), (2.0, 2.0), (3.0, 3.0)]);
    let catmull = CatmullRom::default().try_fit(&points).unwrap();
    // Evenly spaced collinear knots give the straight line in every regime.
    for x in [0.25, 0.5, 1.5, 2.75] {
        assert!((catmull.try_value(F(x)).unwrap().0 - x).abs() < 1e-12);
    }
}

#[test]
fn catmull_rom_uneven_spacing_weights() {
    // Interior interval [1, 2] with h = 1, h_prev = 1, h_next = 2:
    // alpha = 1/2, beta = 1/3; at x = 1.5 the value is 103/48.
    let points = pts(&[(0.0, 0.0), (1.0, 1.0), (2.0, 3.0), (4.0, 2.0)]);
    let catmull = CatmullRom::default().try_fit(&points).unwrap();
    let v = catmull.try_value(F(1.5)).unwrap().0;
    assert!((v - 103.0 / 48.0).abs() < 1e-12);
}

#[test]
fn natural_cubic_curvature_vanishes_at_the_ends() {
    let points = pts(&[(0.0, 0.0), (1.0, 2.0), (2.0, 1.0), (3.0, 3.0), (4.0, 0.5)]);
    let cubic = NaturalCubic::default().try_fit(&points).unwrap();
    let h = 1e-4;
    let f = |x: f64| cubic.try_value(F(x)).unwrap().0;
    let start = (f(0.0) - 2.0 * f(h) + f(2.0 * h)) / (h * h);
    let end = (f(4.0 - 3.0 * h) - 2.0 * f(4.0 - 2.0 * h) + f(4.0 - h)) / (h * h);
    assert!(start.abs() < 1e-2);
    assert!(end.abs() < 1e-2);
}

#[test]
fn natural_cubic_interior_value() {
    // Natural spline through (0,0), (1,1), (2,0): second derivative -3 at x = 1.
    let points = pts(&[(0.0, 0.0), (1.0, 1.0), (2.0, 0.0)]);
    let cubic = NaturalCubic::default().try_fit(&points).unwrap();
    let v = cubic.try_value(F(0.5)).unwrap().0;
    assert!((v - 0.6875).abs() < 1e-12);
}

#[test]
fn linear_falling_knots_give_falling_values() {
    let points = pts(&[(0.0, 5.0), (1.0, 3.0), (2.5, 3.0), (4.0, -1.0)]);
    let linear = Linear::default().try_fit(&points).unwrap();
    let mut prev = linear.try_value(F(0.0)).unwrap();
    let mut x = 0.0;
    while x <= 4.0 {
        let a = linear.try_value(F(x)).unwrap();
        assert!(a.0 <= prev.0);
        prev = a;
        x += 0.1;
    }
}
