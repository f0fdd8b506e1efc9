use crate::date::Date;
use crate::error::{ComputeError, ErrString, QLabError, QLabResult};
use crate::value::Value;
use vstd::prelude::*;

verus! {

/// A day-count convention: the fraction of a year between two dates, as a
/// number of counted days over the days of a year.
pub trait DayCount {
    /// The days counted from `date1` to `date2`, or `None` when the
    /// convention has no count for them.
    spec fn day_count(date1: Date, date2: Date) -> Option<int>;

    /// The days of a year under the convention.
    spec fn year_length() -> int;

    /// Computes the fraction from `date1` to `date2`; fails exactly when the
    /// convention has no count for them.
    fn calculate_day_count_fraction<V: Value>(date1: Date, date2: Date) -> (r: QLabResult<V, V>)
        ensures
            match r {
                Ok(f) => Self::day_count(date1, date2) is Some && f == V::lit_spec(
                    Self::day_count(date1, date2).unwrap(),
                ).div_spec(V::lit_spec(Self::year_length())),
                Err(e) => Self::day_count(date1, date2) is None && e is ComputeError,
            },
    ;
}

/// The fraction of a year from `date1` to `date2` under `D`, as a value.
pub open spec fn fraction<D: DayCount, V: Value>(date1: Date, date2: Date) -> Option<V> {
    match D::day_count(date1, date2) {
        Some(n) => Some(V::lit_spec(n).div_spec(V::lit_spec(D::year_length()))),
        None => None,
    }
}

/// Actual/360: the days between the dates over 360.
#[derive(Debug, Clone, Copy)]
pub struct Act360;

/// Actual/365: the days between the dates over 365.
#[derive(Debug, Clone, Copy)]
pub struct Act365;

/// 30/360: each month counts 30 days, and a 31st counts as the 30th.
#[derive(Debug, Clone, Copy)]
pub struct Thirty360;

impl DayCount for Act360 {
    open spec fn day_count(date1: Date, date2: Date) -> Option<int> {
        Some(date2@ - date1@)
    }

    open spec fn year_length() -> int {
        360
    }

    fn calculate_day_count_fraction<V: Value>(date1: Date, date2: Date) -> (r: QLabResult<V, V>) {
        let date_diff = V::from_i32(date2.sub(date1));
        Ok(date_diff.over(V::from_i32(360)))
    }
}

impl DayCount for Act365 {
    open spec fn day_count(date1: Date, date2: Date) -> Option<int> {
        Some(date2@ - date1@)
    }

    open spec fn year_length() -> int {
        365
    }

    fn calculate_day_count_fraction<V: Value>(date1: Date, date2: Date) -> (r: QLabResult<V, V>) {
        let date_diff = V::from_i32(date2.sub(date1));
        Ok(date_diff.over(V::from_i32(365)))
    }
}

/// The 30/360 day count from `date1` to `date2`.
pub open spec fn thirty_360_days(date1: Date, date2: Date) -> int {
    let d1 = if date1.day_spec() < 30 {
        date1.day_spec()
    } else {
        30
    };
    let d2 = if date2.day_spec() < 30 {
        date2.day_spec()
    } else {
        30
    };
    360 * (date2.year_spec() - date1.year_spec()) + 30 * (date2.month_spec() - date1.month_spec())
        + d2 - d1
}

impl Thirty360 {
    /// The 30/360 day count; fails when `date1` is after `date2`.
    fn date_diff(date1: Date, date2: Date) -> (r: Result<i32, ComputeError>)
        ensures
            match r {
                Ok(n) => date1@ <= date2@ && n == thirty_360_days(date1, date2),
                Err(e) => date1@ > date2@ && e is InvalidInput,
            },
    {
        let s1 = date1.serial_date();
        let s2 = date2.serial_date();
        if s1 > s2 {
            return Err(ComputeError::InvalidInput(ErrString::new("date1 must precede date2")));
        }
        let d1: i64 = if date1.day() < 30 {
            date1.day() as i64
        } else {
            30
        };
        let d2: i64 = if date2.day() < 30 {
            date2.day() as i64
        } else {
            30
        };
        let n: i64 = 360 * (date2.year() as i64 - date1.year() as i64) + 30 * (date2.month() as i64
            - date1.month() as i64) + d2 - d1;
        Ok(n as i32)
    }
}

impl DayCount for Thirty360 {
    open spec fn day_count(date1: Date, date2: Date) -> Option<int> {
        if date1@ > date2@ {
            None
        } else {
            Some(thirty_360_days(date1, date2))
        }
    }

    open spec fn year_length() -> int {
        360
    }

    fn calculate_day_count_fraction<V: Value>(date1: Date, date2: Date) -> (r: QLabResult<V, V>) {
        let date_diff = match Thirty360::date_diff(date1, date2) {
            Ok(n) => n,
            Err(e) => return Err(QLabError::ComputeError(e)),
        };
        Ok(V::from_i32(date_diff).over(V::from_i32(360)))
    }
}

} // verus!
