use chrono::Datelike;
use qlab::calendar::{Calendar, DateRolling, WeekendsOnly};
use qlab::date::Date;
use qlab::day_count::{Act360, Act365, DayCount, Thirty360};
use qlab::error::{ComputeError, QLabError};
use qlab::period::{Days, Months, Years};
use qlab::value::Value;

#[derive(Clone, Copy, Debug, PartialEq, Default)]
struct F(f64);

impl Value for F {
    fn plus(self, rhs: Self) -> Self {
        F(self.0 + rhs.0)
    }
    fn minus(self, rhs: Self) -> Self {
        F(self.0 - rhs.0)
    }
    fn times(self, rhs: Self) -> Self {
        F(self.0 * rhs.0)
    }
    fn over(self, rhs: Self) -> Self {
        F(self.0 / rhs.0)
    }
    fn negated(self) -> Self {
        F(-self.0)
    }
    fn at_most(self, rhs: Self) -> bool {
        self.0 <= rhs.0
    }
    fn exp(self) -> Self {
        F(self.0.exp())
    }
    fn from_i32(n: i32) -> Self {
        F(n as f64)
    }
}

#[test]
fn test_from_ymd_opt_valid_date() {
    let result = Date::from_ymd(2023, 8, 15);
    assert!(result.is_some());
    let result_date = result.unwrap();
    assert_eq!(2023, result_date.year());
    assert_eq!(8, result_date.month());
    assert_eq!(15, result_date.day());
}

#[test]
fn test_from_ymd_opt_invalid_year() {
    let result = Date::from_ymd(2023, 2, 29);
    assert!(result.is_none());
}

#[test]
fn test_days_in_month_february() {
    assert_eq!(Date::days_in_month(2, true).unwrap(), 29);
    assert_eq!(Date::days_in_month(2, false).unwrap(), 28);
}

#[test]
fn test_days_in_month_april() {
    assert_eq!(Date::days_in_month(4, true).unwrap(), 30);
    assert_eq!(Date::days_in_month(4, false).unwrap(), 30);
}

#[test]
fn test_days_in_month_january() {
    assert_eq!(Date::days_in_month(1, true).unwrap(), 31);
    assert_eq!(Date::days_in_month(1, false).unwrap(), 31);
    assert_eq!(Date::days_in_month(2, true).unwrap(), 29);
    assert_eq!(Date::days_in_month(2, false).unwrap(), 28);
}

#[test]
fn test_days_in_month_out_of_range() {
    assert!(Date::days_in_month(13, false).is_none());
}

#[test]
fn test_leap_year() {
    let date = Date::from_ymd(2023, 12, 27).unwrap();
    assert!(!date.leap_year());

    let date = Date::from_ymd(2024, 12, 27).unwrap();
    assert!(date.leap_year());
}

#[test]
fn test_add_years() {
    let date = Date::from_ymd(2023, 12, 31).unwrap();
    let result = date.checked_add_years(1);
    assert!(result.is_some());
    let new_date = result.unwrap();
    assert_eq!(2024, new_date.year());
    assert_eq!(12, new_date.month());
    assert_eq!(31, new_date.day());
    let date = Date::from_ymd(2024, 2, 29).unwrap();
    let result = date.checked_add_years(1);
    let new_date = result.unwrap();
    assert_eq!(2025, new_date.year());
    assert_eq!(2, new_date.month());
    assert_eq!(28, new_date.day());
}

#[test]
fn test_add_months() {
    let date = Date::from_ymd(2023, 12, 31).unwrap();
    let result = date.checked_add_months(Months::new(2));
    assert!(result.is_some());
    let new_date = result.unwrap();
    assert_eq!(2024, new_date.year());
    assert_eq!(2, new_date.month());
    assert_eq!(29, new_date.day());
}

#[test]
fn test_sub_months() {
    let date = Date::from_ymd(2023, 2, 1).unwrap();
    let result = date.checked_sub_months(Months::new(2));
    assert!(result.is_some());
    let new_date = result.unwrap();
    assert_eq!(2022, new_date.year());
    assert_eq!(12, new_date.month());
    assert_eq!(1, new_date.day());
}

#[test]
fn test_add_days() {
    let date = Date::from_ymd(2023, 2, 28).unwrap();
    let result = date.checked_add_days(Days::new(2));
    assert!(result.is_some());
    let new_date = result.unwrap();
    assert_eq!(2023, new_date.year());
    assert_eq!(3, new_date.month());
    assert_eq!(2, new_date.day());
}

#[test]
fn test_sub_days() {
    let date = Date::from_ymd(2023, 3, 1).unwrap();
    let result = date.checked_sub_days(Days::new(2));
    assert!(result.is_some());
    let new_date = result.unwrap();
    assert_eq!(2023, new_date.year());
    assert_eq!(2, new_date.month());
    assert_eq!(27, new_date.day());
}

#[test]
fn test_serial_date() {
    let date = Date::from_ymd(2023, 3, 1).unwrap();
    assert_eq!(date.serial_date(), 738_580);
}

#[test]
fn test_weekend_roll() {
    let date = Date::from_ymd(2023, 3, 5).unwrap();
    assert_eq!(date.weekday(), 6);
    let result = date.weekend_roll();
    assert!(result.is_some());
    let new_date = result.unwrap();
    assert_eq!(2023, new_date.year());
    assert_eq!(3, new_date.month());
    assert_eq!(6, new_date.day());

    let date = Date::from_ymd(2023, 3, 4).unwrap();
    assert_eq!(date.weekday(), 5);
    let result = date.weekend_roll();
    assert!(result.is_some());
    let new_date = result.unwrap();
    assert_eq!(2023, new_date.year());
    assert_eq!(3, new_date.month());
    assert_eq!(6, new_date.day());
}

#[test]
fn weekend_roll_keeps_weekdays() {
    let date = Date::from_ymd(2023, 3, 8).unwrap();
    assert_eq!(date.weekend_roll(), Some(date));
}

#[test]
fn act_360_test_calculate_day_count_fraction() {
    let date1 = Date::from_ymd(2023, 1, 1).unwrap();
    let date2 = Date::from_ymd(2023, 12, 31).unwrap();
    let diff: F = Act360::calculate_day_count_fraction(date1, date2).unwrap();
    assert!((diff.0 - 1.01111).abs() < 0.001);
}

#[test]
fn act_365_test_calculate_day_count_fraction() {
    let date1 = Date::from_ymd(2023, 1, 1).unwrap();
    let date2 = Date::from_ymd(2023, 12, 31).unwrap();
    let diff: F = Act365::calculate_day_count_fraction(date1, date2).unwrap();
    assert!((diff.0 - 0.99726).abs() < 0.001);
}

#[test]
fn thirty_360_test_calculate_day_count_fraction() {
    let date1 = Date::from_ymd(2023, 1, 1).unwrap();
    let date2 = Date::from_ymd(2023, 12, 31).unwrap();
    let diff: F = Thirty360::calculate_day_count_fraction(date1, date2).unwrap();
    assert!((diff.0 - 0.997_222).abs() < 0.001);
}

#[test]
fn day_count_exact_values() {
    let date1 = Date::from_ymd(2023, 1, 31).unwrap();
    let date2 = Date::from_ymd(2023, 3, 1).unwrap();
    let act360: F = Act360::calculate_day_count_fraction(date1, date2).unwrap();
    assert_eq!(act360, F(29.0 / 360.0));
    let act365: F = Act365::calculate_day_count_fraction(date1, date2).unwrap();
    assert_eq!(act365, F(29.0 / 365.0));
    let thirty: F = Thirty360::calculate_day_count_fraction(date1, date2).unwrap();
    assert_eq!(thirty, F(31.0 / 360.0));
}

#[test]
fn thirty_360_rejects_reversed_dates() {
    let date1 = Date::from_ymd(2023, 5, 1).unwrap();
    let date2 = Date::from_ymd(2023, 4, 1).unwrap();
    let r: Result<F, QLabError<F>> = Thirty360::calculate_day_count_fraction(date1, date2);
    assert!(matches!(
        r,
        Err(QLabError::ComputeError(ComputeError::InvalidInput(_)))
    ));
}

#[test]
fn date_difference_and_order() {
    let a = Date::from_ymd(2024, 2, 28).unwrap();
    let b = Date::from_ymd(2024, 3, 1).unwrap();
    assert_eq!(b.sub(a), 2);
    assert!(a < b);
    assert_eq!(a.succ_opt().unwrap().day(), 29);
    assert_eq!(b.pred_opt().unwrap().day(), 29);
}

#[test]
fn test_weekends_only() {
    let first = chrono::NaiveDate::from_ymd_opt(2023, 1, 1).unwrap();
    for n in 0i32..365 {
        let target = first + chrono::Duration::days(i64::from(n));
        let date = Date::from_ymd(target.year(), target.month(), target.day()).unwrap();
        assert_eq!(
            WeekendsOnly.is_business_day(date),
            !matches!(target.weekday(), chrono::Weekday::Sat | chrono::Weekday::Sun)
        );
        assert_eq!(WeekendsOnly.is_holiday(date), !WeekendsOnly.is_business_day(date));
    }
}

#[test]
fn rolling_conventions() {
    // Saturday 4 March 2023.
    let friday = Date::from_ymd(2023, 3, 3).unwrap();
    let one = Days::new(1);
    let cal = WeekendsOnly;
    let sat = friday.checked_roll(one, &cal, DateRolling::Unadjusted).unwrap();
    assert_eq!(sat.day(), 4);
    let fol = friday.checked_roll(one, &cal, DateRolling::Following).unwrap();
    assert_eq!((fol.month(), fol.day()), (3, 6));
    let pre = friday.checked_roll(one, &cal, DateRolling::Preceding).unwrap();
    assert_eq!((pre.month(), pre.day()), (3, 3));
    // Friday 28 April 2023 plus one day is Saturday 29 April; the following
    // business day is in May, so modified following goes back.
    let apr = Date::from_ymd(2023, 4, 28).unwrap();
    let mf = apr.checked_roll(one, &cal, DateRolling::ModifiedFollowing).unwrap();
    assert_eq!((mf.month(), mf.day()), (4, 28));
    // Monday 1 May 2023 minus nothing: a business day stays.
    let may = Date::from_ymd(2023, 5, 1).unwrap();
    let mp = may.checked_roll(Days::new(0), &cal, DateRolling::ModifiedPreceding).unwrap();
    assert_eq!(mp, may);
    let y = may.checked_roll(Years::new(1), &cal, DateRolling::Unadjusted).unwrap();
    assert_eq!((y.year(), y.month(), y.day()), (2024, 5, 1));
    let m = may.checked_roll(Months::new(1), &cal, DateRolling::Unadjusted).unwrap();
    assert_eq!((m.month(), m.day()), (6, 1));
}

#[test]
fn date_range_edges() {
    assert!(Date::from_ymd(262_142, 12, 31).is_some());
    assert!(Date::from_ymd(262_143, 1, 1).is_none());
    assert!(Date::from_ymd(-262_143, 1, 1).is_some());
    assert!(Date::from_ymd(-262_144, 12, 31).is_none());
    assert!(Date::from_ymd(2023, 0, 1).is_none());
    assert!(Date::from_ymd(2023, 4, 31).is_none());
    let last = Date::from_ymd(262_142, 12, 31).unwrap();
    assert!(last.succ_opt().is_none());
    assert!(last.checked_add_months(Months::new(1)).is_none());
    let first = Date::from_ymd(-262_143, 1, 1).unwrap();
    assert!(first.pred_opt().is_none());
    assert_eq!(Date::from_ymd(1, 1, 1).unwrap().serial_date(), 1);
    assert_eq!(Date::from_ymd(0, 12, 31).unwrap().serial_date(), 0);
}

struct NoBusinessDays;

impl Calendar for NoBusinessDays {
    fn is_business_day(&self, _date: Date) -> bool {
        false
    }
}

#[test]
fn rolling_fails_only_when_no_business_day_remains() {
    let near_end = Date::from_ymd(262_142, 12, 25).unwrap();
    let zero = Days::new(0);
    assert!(near_end
        .checked_roll(zero, &NoBusinessDays, DateRolling::Following)
        .is_none());
    let near_start = Date::from_ymd(-262_143, 1, 5).unwrap();
    assert!(near_start
        .checked_roll(zero, &NoBusinessDays, DateRolling::Preceding)
        .is_none());
    let end = near_end
        .checked_roll(zero, &WeekendsOnly, DateRolling::Following)
        .unwrap();
    assert!(WeekendsOnly.is_business_day(end));
}
