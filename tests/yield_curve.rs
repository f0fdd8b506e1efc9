use qlab::date::Date;
use qlab::day_count::Act365;
use qlab::error::{ComputeError, InterpolationError, QLabError};
use qlab::grid_curve::LinearInterpolation;
use qlab::interpolation::linear::Linear;
use qlab::interpolation::Interpolator;
use qlab::value::Value;
use qlab::yield_curve::YieldCurve;

#[derive(Clone, Copy, Debug, PartialEq, Default)]
struct F(f64);

impl Value for F {
    fn plus(self, rhs: Self) -> Self {
        F(self.0 + rhs.0)
    }
    fn minus(self, rhs: Self) -> Self {
        F(self.0 - rhs.0)
    }
    fn times(self, rhs: Self) -> Self {
        F(self.0 * rhs.0)
    }
    fn over(self, rhs: Self) -> Self {
        F(self.0 / rhs.0)
    }
    fn negated(self) -> Self {
        F(-self.0)
    }
    fn at_most(self, rhs: Self) -> bool {
        self.0 <= rhs.0
    }
    fn exp(self) -> Self {
        F(self.0.exp())
    }
    fn from_i32(n: i32) -> Self {
        F(n as f64)
    }
}

#[derive(Default)]
struct Flat(F);

impl Interpolator<F> for Flat {
    fn try_fit(self, _x_and_y: &[(F, F)]) -> Result<Self, InterpolationError<F>> {
        Ok(self)
    }

    fn try_value(&self, _t: F) -> Result<F, InterpolationError<F>> {
        Ok(self.0)
    }
}

fn date(y: i32, m: u32, d: u32) -> Date {
    Date::from_ymd(y, m, d).unwrap()
}

#[test]
fn test_discount_factor() {
    let settlement_date = date(2022, 12, 31);
    let maturities = vec![date(2022, 12, 31)];
    let spot_yields = vec![F(0.02)];

    let yield_curve =
        YieldCurve::<Act365, F, Flat>::new(settlement_date, &maturities, &spot_yields).unwrap();

    let d1 = date(2023, 1, 1);
    let d2 = date(2023, 12, 31);
    let discount_factor = yield_curve.discount_factor(d1, d2).unwrap();
    assert!((discount_factor.0 - 1.0_f64).abs() < f64::EPSILON);
}

#[derive(Default)]
struct FlatTwoPercent;

impl Interpolator<F> for FlatTwoPercent {
    fn try_fit(self, _x_and_y: &[(F, F)]) -> Result<Self, InterpolationError<F>> {
        Ok(self)
    }

    fn try_value(&self, _t: F) -> Result<F, InterpolationError<F>> {
        Ok(F(0.02))
    }
}

#[test]
fn flat_yield_discount_factor_is_one_on_equal_dates() {
    let settlement = date(2022, 12, 31);
    let curve =
        YieldCurve::<Act365, F, FlatTwoPercent>::new(settlement, &[settlement], &[F(0.02)])
            .unwrap();
    let same = curve.discount_factor(settlement, settlement).unwrap();
    assert!((same.0 - 1.0).abs() < 1e-9);
    let later = date(2024, 6, 30);
    let forward = curve.discount_factor(later, later).unwrap();
    assert!((forward.0 - 1.0).abs() < 1e-9);
    let one_year = curve.discount_factor(settlement, date(2023, 12, 31)).unwrap();
    assert!((one_year.0 - (-0.02_f64).exp()).abs() < 1e-12);
}

#[test]
fn yield_curve_rejects_bad_inputs() {
    let settlement = date(2023, 1, 1);
    let r = YieldCurve::<Act365, F, Linear<F>>::new(settlement, &[date(2024, 1, 1)], &[]);
    assert!(matches!(
        r,
        Err(QLabError::ComputeError(ComputeError::InvalidInput(_)))
    ));
    let r = YieldCurve::<Act365, F, Linear<F>>::new(settlement, &[date(2024, 1, 1)], &[F(0.01)]);
    assert!(matches!(
        r,
        Err(QLabError::InterpolationError(
            InterpolationError::InsufficientPointsError(1)
        ))
    ));
    let r = YieldCurve::<Act365, F, Linear<F>>::new(
        settlement,
        &[date(2025, 1, 1), date(2024, 1, 1)],
        &[F(0.01), F(0.02)],
    );
    assert!(matches!(
        r,
        Err(QLabError::InterpolationError(InterpolationError::PointOrderError))
    ));
}

#[test]
fn linear_yield_curve_discount_factors() {
    let settlement = date(2023, 1, 1);
    let maturities = [date(2023, 1, 1), date(2024, 1, 1), date(2025, 1, 1)];
    let yields = [F(0.01), F(0.02), F(0.03)];
    let curve = YieldCurve::<Act365, F, Linear<F>>::new(settlement, &maturities, &yields).unwrap();
    let d2 = date(2024, 1, 1);
    let df = curve.discount_factor(settlement, d2).unwrap().0;
    assert!((df - (-0.02_f64).exp()).abs() < 1e-12);
    let d1 = date(2023, 7, 2);
    let t1 = 182.0 / 365.0;
    let y1 = 0.01 + 0.01 * t1;
    let fwd = curve.discount_factor(d1, d2).unwrap().0;
    assert!((fwd - (t1 * y1 - 0.02_f64).exp()).abs() < 1e-12);
    assert!(matches!(
        curve.discount_factor(d2, d1),
        Err(QLabError::ComputeError(ComputeError::InvalidInput(_)))
    ));
    assert!(matches!(
        curve.discount_factor(date(2022, 12, 31), d2),
        Err(QLabError::ComputeError(ComputeError::InvalidInput(_)))
    ));
}

#[test]
fn interpolation_failure_passes_through() {
    let settlement = date(2023, 1, 1);
    let maturities = [date(2023, 6, 1), date(2024, 1, 1)];
    let yields = [F(0.01), F(0.02)];
    let curve = YieldCurve::<Act365, F, Linear<F>>::new(settlement, &maturities, &yields).unwrap();
    let r = curve.discount_factor(settlement, date(2023, 2, 1));
    assert!(matches!(
        r,
        Err(QLabError::InterpolationError(InterpolationError::OutOfLowerBound(_)))
    ));
}

#[test]
fn grid_curve_reads_straight_lines() {
    let settlement = date(2023, 1, 1);
    let maturities = [date(2024, 1, 1), date(2025, 1, 1), date(2026, 1, 1)];
    let grid = LinearInterpolation::new(
        settlement,
        &maturities,
        vec![F(0.01), F(0.03), F(0.02)],
        Act365,
    )
    .unwrap();
    assert_eq!(grid.settlement_date(), settlement);
    let t1 = 1.0;
    let t2 = 731.0 / 365.0;
    let mid = (t1 + t2) / 2.0;
    let y = grid.yield_curve(F(mid)).unwrap().0;
    assert!((y - 0.02).abs() < 1e-12);
    // At a grid maturity the interval ending there is used.
    let y = grid.yield_curve(F(t2)).unwrap().0;
    assert!((y - 0.03).abs() < 1e-12);
    // At or beyond the last maturity the last yield.
    assert_eq!(grid.yield_curve(F(10.0)).unwrap(), F(0.02));
    // Not after the first maturity: rejected.
    assert!(matches!(
        grid.yield_curve(F(1.0)),
        Err(QLabError::ComputeError(ComputeError::InvalidInput(_)))
    ));
    assert!(matches!(
        grid.yield_curve(F(0.5)),
        Err(QLabError::ComputeError(ComputeError::InvalidInput(_)))
    ));
}

#[test]
fn grid_curve_rejects_bad_inputs() {
    let settlement = date(2023, 1, 1);
    let r = LinearInterpolation::<F, Act365>::new(settlement, &[date(2024, 1, 1)], vec![], Act365);
    assert!(matches!(
        r,
        Err(QLabError::ComputeError(ComputeError::InvalidInput(_)))
    ));
    let empty = LinearInterpolation::<F, Act365>::new(settlement, &[], vec![], Act365).unwrap();
    assert!(matches!(
        empty.yield_curve(F(1.0)),
        Err(QLabError::ComputeError(ComputeError::InvalidInput(_)))
    ));
}
