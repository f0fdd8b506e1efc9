use qlab::bond::{Bond, Frequency};
use qlab::date::Date;
use qlab::day_count::Act365;
use qlab::interpolation::natural_cubic::NaturalCubic;
use qlab::value::Value;
use qlab::yield_curve::YieldCurve;

#[derive(Clone, Copy, Debug, PartialEq)]
struct F(f64);

impl Value for F {
    fn plus(self, rhs: Self) -> Self {
        F(self.0 + rhs.0)
    }
    fn minus(self, rhs: Self) -> Self {
        F(self.0 - rhs.0)
    }
    fn times(self, rhs: Self) -> Self {
        F(self.0 * rhs.0)
    }
    fn over(self, rhs: Self) -> Self {
        F(self.0 / rhs.0)
    }
    fn negated(self) -> Self {
        F(-self.0)
    }
    fn at_most(self, rhs: Self) -> bool {
        self.0 <= rhs.0
    }
    fn exp(self) -> Self {
        F(self.0.exp())
    }
    fn from_i32(n: i32) -> Self {
        F(n as f64)
    }
}

#[test]
fn main() {
    let bond_id = "20 yr bond";
    let issue_date = Date::from_ymd(2023, 5, 8).unwrap();
    let first_coupon_date = Date::from_ymd(2023, 11, 7).unwrap();
    let penultimate_coupon_date = Date::from_ymd(2042, 5, 7).unwrap();
    let maturity_date = Date::from_ymd(2042, 11, 7).unwrap();
    let coupon_frequency = Frequency::SA;
    let coupon_rate = F(0.062);
    let face_value = F(1000.00);
    let bond_20_yr = Bond::new(
        bond_id,
        issue_date,
        first_coupon_date,
        penultimate_coupon_date,
        maturity_date,
        coupon_frequency,
        coupon_rate,
        face_value,
    )
    .unwrap();
    let spot_settle_date = Date::from_ymd(2023, 10, 10).unwrap();
    let maturities = [
        Date::from_ymd(2023, 10, 11).unwrap(),
        Date::from_ymd(2024, 1, 10).unwrap(),
        Date::from_ymd(2024, 4, 10).unwrap(),
        Date::from_ymd(2024, 10, 10).unwrap(),
        Date::from_ymd(2025, 10, 10).unwrap(),
        Date::from_ymd(2026, 10, 12).unwrap(),
        Date::from_ymd(2028, 10, 10).unwrap(),
        Date::from_ymd(2030, 10, 10).unwrap(),
        Date::from_ymd(2033, 10, 10).unwrap(),
        Date::from_ymd(2038, 10, 11).unwrap(),
        Date::from_ymd(2043, 10, 12).unwrap(),
        Date::from_ymd(2053, 10, 10).unwrap(),
    ];
    let spot_yields: Vec<F> = [
        0.02, 0.0219, 0.0237, 0.0267, 0.0312, 0.0343, 0.0378, 0.0393, 0.04, 0.0401, 0.0401, 0.04,
    ]
    .iter()
    .map(|&y| F(y))
    .collect();
    let yield_curve: YieldCurve<Act365, F, NaturalCubic<F>> =
        YieldCurve::new(spot_settle_date, &maturities, &spot_yields).unwrap();
    let val = bond_20_yr
        .discounted_value(spot_settle_date, &yield_curve)
        .unwrap();
    println!("{}", bond_20_yr.bond_id());
    println!("{}", val.0);
    assert_eq!(bond_20_yr.bond_id(), "20 yr bond");
    assert!(val.0 > 1000.0 && val.0 < 1500.0);
}

#[derive(Default)]
struct Zero;

impl qlab::interpolation::Interpolator<F> for Zero {
    fn try_fit(self, _: &[(F, F)]) -> Result<Self, qlab::error::InterpolationError<F>> {
        Ok(self)
    }
    fn try_value(&self, _: F) -> Result<F, qlab::error::InterpolationError<F>> {
        Ok(F(0.0))
    }
}

#[test]
fn bond_cash_flows_sum_at_zero_yield() {
    // Issued on a regular date, maturing on one: every coupon is regular.
    let d = |y, m, day| Date::from_ymd(y, m, day).unwrap();
    let bond = Bond::new(
        "two year",
        d(2023, 1, 2),
        d(2023, 7, 2),
        d(2024, 7, 2),
        d(2025, 1, 2),
        Frequency::SA,
        F(0.05),
        F(100.0),
    )
    .unwrap();
    let settle = d(2023, 1, 2);
    let curve = YieldCurve::<Act365, F, Zero>::new(settle, &[settle], &[F(0.0)]).unwrap();
    let pv = bond.discounted_value(settle, &curve).unwrap().0;
    assert!((pv - 110.0).abs() < 1e-9);
    // After the first two coupons only the rest is left.
    let later = d(2024, 1, 3);
    let pv = bond.discounted_value(later, &curve).unwrap().0;
    assert!((pv - 105.0).abs() < 1e-9);
}

#[test]
fn bond_short_first_period_cuts_the_coupon() {
    let d = |y, m, day| Date::from_ymd(y, m, day).unwrap();
    // Issued halfway into the first period (2 April 2023 .. 2 October 2023).
    let bond = Bond::new(
        "short first",
        d(2023, 7, 2),
        d(2023, 10, 2),
        d(2023, 10, 2),
        d(2024, 4, 2),
        Frequency::SA,
        F(0.1),
        F(100.0),
    )
    .unwrap();
    let settle = d(2023, 7, 1);
    let curve = YieldCurve::<Act365, F, Zero>::new(settle, &[settle], &[F(0.0)]).unwrap();
    let pv = bond.discounted_value(settle, &curve).unwrap().0;
    let first = 5.0 * 92.0 / 183.0;
    assert!((pv - (first + 105.0)).abs() < 1e-9);
}

#[test]
fn bond_rejects_first_coupon_after_penultimate() {
    let d = |y, m, day| Date::from_ymd(y, m, day).unwrap();
    let bond = Bond::new(
        "none",
        d(2023, 1, 1),
        d(2024, 1, 1),
        d(2023, 7, 1),
        d(2024, 7, 1),
        Frequency::SA,
        F(0.1),
        F(100.0),
    );
    assert!(bond.is_none());
}
