use crate::period::{Days, Months};
use chrono::Datelike;
use vstd::prelude::*;

verus! {

/// The first year a date can have.
pub const MIN_YEAR: i32 = -262143;

/// The last year a date can have.
pub const MAX_YEAR: i32 = 262142;

/// Leap years of the proleptic Gregorian calendar.
pub open spec fn is_leap_year(year: int) -> bool {
    year % 4 == 0 && (year % 100 != 0 || year % 400 == 0)
}

/// The number of days of `month` (1 to 12) in `year`.
pub open spec fn month_length(year: int, month: int) -> int {
    if month == 2 {
        if is_leap_year(year) {
            29
        } else {
            28
        }
    } else if month == 4 || month == 6 || month == 9 || month == 11 {
        30
    } else {
        31
    }
}

/// `year-month-day` is a calendar date.
pub open spec fn valid_ymd(year: int, month: int, day: int) -> bool {
    &&& 1 <= month <= 12
    &&& 1 <= day <= month_length(year, month)
}

/// The days of `year` before the first of `month`.
pub open spec fn days_before_month(year: int, month: int) -> int
    decreases month,
{
    if month <= 1 {
        0
    } else {
        days_before_month(year, month - 1) + month_length(year, month - 1)
    }
}

/// The days before 1 January of `year`, counted from 1 January of year 1.
pub open spec fn days_before_year(year: int) -> int {
    let p = year - 1;
    365 * p + p / 4 - p / 100 + p / 400
}

/// The day number of a date, counting 1 January of year 1 as day 1.
pub open spec fn serial_of(year: int, month: int, day: int) -> int {
    days_before_year(year) + days_before_month(year, month) + day
}

/// The month count of a year and month, from January of year 0.
pub open spec fn month_index(year: int, month: int) -> int {
    year * 12 + month - 1
}

/// `target` is the same day of the month `months` months after
/// `year-month-day`, or the last day of its month when that is shorter.
pub open spec fn shifted_months(year: int, month: int, day: int, months: int, ty: int, tm: int, td: int) -> bool {
    &&& month_index(ty, tm) == month_index(year, month) + months
    &&& td == if day <= month_length(ty, tm) {
        day
    } else {
        month_length(ty, tm)
    }
}

/// `target` is `months` months after `date` (before it when negative), on the
/// same day of the month or the last day of a shorter month.
pub open spec fn months_later(date: Date, months: int, target: Date) -> bool {
    shifted_months(
        date.year_spec(),
        date.month_spec(),
        date.day_spec(),
        months,
        target.year_spec(),
        target.month_spec(),
        target.day_spec(),
    )
}

/// Relies on chrono's `NaiveDate::from_ymd_opt`, which accepts exactly the
/// calendar dates of the years `MIN_YEAR` to `MAX_YEAR`, and on
/// `Datelike::num_days_from_ce`, which counts 1 January of year 1 as day 1.
#[verifier::external_body]
fn serial_from_ymd(year: i32, month: u32, day: u32) -> (r: Option<i32>)
    ensures
        r.is_some() == (valid_ymd(year as int, month as int, day as int) && MIN_YEAR <= year
            <= MAX_YEAR),
        r.is_some() ==> r.unwrap() == serial_of(year as int, month as int, day as int),
{
    match chrono::NaiveDate::from_ymd_opt(year, month, day) {
        Some(date) => Some(date.num_days_from_ce()),
        None => None,
    }
}

/// The day number of the first date, 1 January of `MIN_YEAR`.
pub open spec fn first_day_number() -> int {
    serial_of(MIN_YEAR as int, 1, 1)
}

/// The day number of the last date, 31 December of `MAX_YEAR`.
pub open spec fn last_day_number() -> int {
    serial_of(MAX_YEAR as int, 12, 31)
}

/// Relies on chrono's `NaiveDate::from_num_days_from_ce_opt`: the date with
/// the given day number, which exists exactly when the number is in range.
#[verifier::external_body]
fn ymd_from_serial(serial: i32) -> (r: Option<(i32, u32, u32)>)
    ensures
        r.is_some() ==> valid_ymd(r.unwrap().0 as int, r.unwrap().1 as int, r.unwrap().2 as int)
            && MIN_YEAR <= r.unwrap().0 <= MAX_YEAR && serial_of(
            r.unwrap().0 as int,
            r.unwrap().1 as int,
            r.unwrap().2 as int,
        ) == serial,
        first_day_number() <= serial <= last_day_number() ==> r.is_some(),
{
    match chrono::NaiveDate::from_num_days_from_ce_opt(serial) {
        Some(date) => Some((date.year(), date.month(), date.day())),
        None => None,
    }
}

/// Relies on chrono's `NaiveDate::checked_add_months`: the same day `months`
/// months later, or the last day of that month when it is shorter.
#[verifier::external_body]
fn ymd_plus_months(year: i32, month: u32, day: u32, months: u32) -> (r: Option<(i32, u32, u32)>)
    requires
        valid_ymd(year as int, month as int, day as int),
        MIN_YEAR <= year <= MAX_YEAR,
    ensures
        r.is_some() ==> {
            let (y, m, d) = r.unwrap();
            &&& valid_ymd(y as int, m as int, d as int)
            &&& MIN_YEAR <= y <= MAX_YEAR
            &&& month_index(y as int, m as int) == month_index(year as int, month as int)
                + months
            &&& d == if day <= month_length(y as int, m as int) {
                day as int
            } else {
                month_length(y as int, m as int)
            }
        },
        MIN_YEAR <= (month_index(year as int, month as int) + months) / 12 <= MAX_YEAR
            ==> r.is_some(),
{
    match chrono::NaiveDate::from_ymd_opt(year, month, day) {
        Some(date) => match date.checked_add_months(chrono::Months::new(months)) {
            Some(r) => Some((r.year(), r.month(), r.day())),
            None => None,
        },
        None => None,
    }
}

/// Relies on chrono's `NaiveDate::checked_sub_months`: the same day `months`
/// months earlier, or the last day of that month when it is shorter.
#[verifier::external_body]
fn ymd_minus_months(year: i32, month: u32, day: u32, months: u32) -> (r: Option<(i32, u32, u32)>)
    requires
        valid_ymd(year as int, month as int, day as int),
        MIN_YEAR <= year <= MAX_YEAR,
    ensures
        r.is_some() ==> {
            let (y, m, d) = r.unwrap();
            &&& valid_ymd(y as int, m as int, d as int)
            &&& MIN_YEAR <= y <= MAX_YEAR
            &&& month_index(y as int, m as int) == month_index(year as int, month as int)
                - months
            &&& d == if day <= month_length(y as int, m as int) {
                day as int
            } else {
                month_length(y as int, m as int)
            }
        },
        MIN_YEAR <= (month_index(year as int, month as int) - months) / 12 <= MAX_YEAR
            ==> r.is_some(),
{
    match chrono::NaiveDate::from_ymd_opt(year, month, day) {
        Some(date) => match date.checked_sub_months(chrono::Months::new(months)) {
            Some(r) => Some((r.year(), r.month(), r.day())),
            None => None,
        },
        None => None,
    }
}

/// The days before the first of a month number at most 334.
proof fn lemma_days_before_month_bounds(year: int, month: int)
    requires
        1 <= month <= 12,
    ensures
        0 <= days_before_month(year, month) <= 31 * (month - 1),
    decreases month,
{
    if month > 1 {
        lemma_days_before_month_bounds(year, month - 1);
    }
}

/// Day numbers of dates in range fit comfortably in an `i32`.
proof fn lemma_serial_bounds(year: int, month: int, day: int)
    requires
        valid_ymd(year, month, day),
        MIN_YEAR <= year <= MAX_YEAR,
    ensures
        -100_000_000 < serial_of(year, month, day) < 100_000_000,
        first_day_number() <= serial_of(year, month, day) <= last_day_number(),
{
    if month_index(MIN_YEAR as int, 1) < month_index(year, month) {
        lemma_later_month_later_day(MIN_YEAR as int, 1, 1, year, month, day);
    }
    if month_index(year, month) < month_index(MAX_YEAR as int, 12) {
        lemma_later_month_later_day(year, month, day, MAX_YEAR as int, 12, 31);
    }
    lemma_days_before_month_bounds(year, month);
    let p = year - 1;
    assert(-262144 <= p <= 262141);
    assert(-100_000_000 < 365 * p + p / 4 - p / 100 + p / 400 < 99_999_000) by (nonlinear_arith)
        requires
            -262144 <= p <= 262141,
    ;
}

/// The days before a month grow by at least the length of each earlier month.
proof fn lemma_days_before_month_grow(year: int, m1: int, m2: int)
    requires
        1 <= m1 < m2 <= 12,
    ensures
        days_before_month(year, m2) >= days_before_month(year, m1) + month_length(year, m1),
    decreases m2 - m1,
{
    if m2 > m1 + 1 {
        lemma_days_before_month_grow(year, m1, m2 - 1);
    }
}

/// A year has 365 days, 366 in a leap year.
proof fn lemma_year_length(year: int)
    ensures
        days_before_month(year, 12) + 31 == if is_leap_year(year) {
            366int
        } else {
            365int
        },
        days_before_year(year + 1) == days_before_year(year) + if is_leap_year(year) {
            366int
        } else {
            365int
        },
{
    reveal_with_fuel(days_before_month, 12);
}

/// Later years start later.
proof fn lemma_days_before_year_grow(y1: int, y2: int)
    requires
        y1 < y2,
    ensures
        days_before_year(y2) >= days_before_year(y1 + 1),
    decreases y2 - y1,
{
    if y2 > y1 + 1 {
        lemma_days_before_year_grow(y1, y2 - 1);
        lemma_year_length(y2 - 1);
    }
}

/// A date in a later month has a larger day number.
pub proof fn lemma_later_month_later_day(y1: int, m1: int, d1: int, y2: int, m2: int, d2: int)
    requires
        valid_ymd(y1, m1, d1),
        valid_ymd(y2, m2, d2),
        month_index(y1, m1) < month_index(y2, m2),
    ensures
        serial_of(y1, m1, d1) < serial_of(y2, m2, d2),
{
    lemma_days_before_month_bounds(y2, m2);
    if m1 < 12 {
        lemma_days_before_month_grow(y1, m1, 12);
    }
    if y1 == y2 {
        lemma_days_before_month_grow(y1, m1, m2);
    } else {
        lemma_year_length(y1);
        lemma_days_before_year_grow(y1, y2);
    }
}

/// A date before the last year is at least a year before the last date.
pub proof fn lemma_before_last_year(year: int, month: int, day: int)
    requires
        valid_ymd(year, month, day),
        year < MAX_YEAR,
    ensures
        serial_of(year, month, day) + 365 <= last_day_number(),
{
    lemma_later_month_later_day(year, month, day, MAX_YEAR as int, 1, 1);
    lemma_year_length(MAX_YEAR as int);
}

/// A calendar date, held as its day number and its year, month and day.
#[derive(PartialEq, Eq, Structural, Hash, PartialOrd, Ord, Copy, Clone, Debug)]
pub struct Date {
    serial: i32,
    year: i32,
    month: u32,
    day: u32,
}

impl Date {
    #[verifier::type_invariant]
    spec fn inv(self) -> bool {
        &&& valid_ymd(self.year as int, self.month as int, self.day as int)
        &&& MIN_YEAR <= self.year <= MAX_YEAR
        &&& self.serial == serial_of(self.year as int, self.month as int, self.day as int)
    }

    /// The day number, counting 1 January of year 1 as day 1.
    pub closed spec fn view(&self) -> int {
        self.serial as int
    }

    pub closed spec fn year_spec(&self) -> int {
        self.year as int
    }

    pub closed spec fn month_spec(&self) -> int {
        self.month as int
    }

    pub closed spec fn day_spec(&self) -> int {
        self.day as int
    }

    /// What every date satisfies.
    pub open spec fn valid(&self) -> bool {
        &&& valid_ymd(self.year_spec(), self.month_spec(), self.day_spec())
        &&& MIN_YEAR <= self.year_spec() <= MAX_YEAR
        &&& self@ == serial_of(self.year_spec(), self.month_spec(), self.day_spec())
        &&& -100_000_000 < self@ < 100_000_000
        &&& first_day_number() <= self@ <= last_day_number()
    }

    /// The date `year-month-day`; `None` unless it is a calendar date of a
    /// year from `MIN_YEAR` to `MAX_YEAR`.
    pub fn from_ymd(year: i32, month: u32, day: u32) -> (r: Option<Self>)
        ensures
            r.is_some() == (valid_ymd(year as int, month as int, day as int) && MIN_YEAR <= year
                <= MAX_YEAR),
            r.is_some() ==> r.unwrap().year_spec() == year && r.unwrap().month_spec() == month
                && r.unwrap().day_spec() == day && r.unwrap().valid(),
    {
        match serial_from_ymd(year, month, day) {
            Some(serial) => {
                proof {
                    lemma_serial_bounds(year as int, month as int, day as int);
                }
                Some(Date { serial, year, month, day })
            },
            None => None,
        }
    }

    /// The date with day number `serial`, when it is in range.
    fn from_serial(serial: i32) -> (r: Option<Self>)
        ensures
            r.is_some() ==> r.unwrap()@ == serial && r.unwrap().valid(),
            first_day_number() <= serial <= last_day_number() ==> r.is_some(),
    {
        match ymd_from_serial(serial) {
            Some((year, month, day)) => {
                proof {
                    lemma_serial_bounds(year as int, month as int, day as int);
                }
                Some(Date { serial, year, month, day })
            },
            None => None,
        }
    }

    /// The number of days in `month` (1 to 12); `None` for another month.
    pub fn days_in_month(month: u32, leap_year: bool) -> (r: Option<u32>)
        ensures
            r.is_some() == (1 <= month <= 12),
            r.is_some() ==> r.unwrap() == if month == 2 {
                if leap_year {
                    29int
                } else {
                    28int
                }
            } else {
                month_length(1, month as int)
            },
    {
        match month {
            1 | 3 | 5 | 7 | 8 | 10 | 12 => Some(31),
            4 | 6 | 9 | 11 => Some(30),
            2 => {
                if leap_year {
                    Some(29)
                } else {
                    Some(28)
                }
            },
            _ => None,
        }
    }

    /// Whether the date's year is a leap year.
    pub fn leap_year(self) -> (r: bool)
        ensures
            r == is_leap_year(self.year_spec()),
    {
        proof {
            use_type_invariant(&self);
        }
        let y = (self.year as i64 + 400_000) as u32;
        assert(is_leap_year(self.year as int) == is_leap_year(y as int)) by {
            let z = self.year as int;
            assert((z + 400_000) % 4 == z % 4);
            assert((z + 400_000) % 100 == z % 100);
            assert((z + 400_000) % 400 == z % 400);
        }
        y % 4 == 0 && (y % 100 != 0 || y % 400 == 0)
    }

    pub fn year(&self) -> (r: i32)
        ensures
            r == self.year_spec(),
    {
        self.year
    }

    pub fn month(&self) -> (r: u32)
        ensures
            r == self.month_spec(),
    {
        self.month
    }

    pub fn day(self) -> (r: u32)
        ensures
            r == self.day_spec(),
    {
        self.day
    }

    /// The day number, counting 1 January of year 1 as day 1.
    pub fn serial_date(self) -> (r: i32)
        ensures
            r == self@,
            self.valid(),
    {
        proof {
            use_type_invariant(&self);
            lemma_serial_bounds(self.year as int, self.month as int, self.day as int);
        }
        self.serial
    }

    /// The number of days from `rhs` to `self`.
    pub fn sub(self, rhs: Self) -> (r: i32)
        ensures
            r == self@ - rhs@,
            self.valid(),
            rhs.valid(),
    {
        proof {
            use_type_invariant(&self);
            use_type_invariant(&rhs);
            lemma_serial_bounds(self.year as int, self.month as int, self.day as int);
            lemma_serial_bounds(rhs.year as int, rhs.month as int, rhs.day as int);
        }
        self.serial - rhs.serial
    }

    /// The day of the week, counting Monday as 0 and Sunday as 6.
    pub fn weekday(self) -> (r: u32)
        ensures
            r == (self@ - 1) % 7,
    {
        proof {
            use_type_invariant(&self);
            lemma_serial_bounds(self.year as int, self.month as int, self.day as int);
        }
        ((self.serial as i64 - 1) % 7 + 7) as u32 % 7
    }

    /// The date `rhs_days` days later; `None` when out of range.
    pub fn checked_add_days(self, rhs_days: Days) -> (r: Option<Self>)
        ensures
            r.is_some() ==> r.unwrap()@ == self@ + rhs_days.0 && r.unwrap().valid(),
            first_day_number() <= self@ + rhs_days.0 <= last_day_number() ==> r.is_some(),
    {
        proof {
            use_type_invariant(&self);
            lemma_serial_bounds(self.year as int, self.month as int, self.day as int);
        }
        proof {
            lemma_serial_bounds(MAX_YEAR as int, 12, 31);
            lemma_serial_bounds(MIN_YEAR as int, 1, 1);
        }
        if rhs_days.0 > 200_000_000 {
            return None;
        }
        let target = self.serial as i64 + rhs_days.0 as i64;
        if target > i32::MAX as i64 {
            return None;
        }
        Date::from_serial(target as i32)
    }

    /// The date `rhs_days` days earlier; `None` when out of range.
    pub fn checked_sub_days(self, rhs_days: Days) -> (r: Option<Self>)
        ensures
            r.is_some() ==> r.unwrap()@ == self@ - rhs_days.0 && r.unwrap().valid(),
            first_day_number() <= self@ - rhs_days.0 <= last_day_number() ==> r.is_some(),
    {
        proof {
            use_type_invariant(&self);
            lemma_serial_bounds(self.year as int, self.month as int, self.day as int);
        }
        proof {
            lemma_serial_bounds(MAX_YEAR as int, 12, 31);
            lemma_serial_bounds(MIN_YEAR as int, 1, 1);
        }
        if rhs_days.0 > 200_000_000 {
            return None;
        }
        let target = self.serial as i64 - rhs_days.0 as i64;
        if target < i32::MIN as i64 {
            return None;
        }
        Date::from_serial(target as i32)
    }

    /// The next day; `None` on the last date.
    pub fn succ_opt(self) -> (r: Option<Self>)
        ensures
            r.is_some() ==> r.unwrap()@ == self@ + 1 && r.unwrap().valid(),
            first_day_number() <= self@ + 1 <= last_day_number() ==> r.is_some(),
    {
        self.checked_add_days(Days::new(1))
    }

    /// The previous day; `None` on the first date.
    pub fn pred_opt(self) -> (r: Option<Self>)
        ensures
            r.is_some() ==> r.unwrap()@ == self@ - 1 && r.unwrap().valid(),
            first_day_number() <= self@ - 1 <= last_day_number() ==> r.is_some(),
    {
        self.checked_sub_days(Days::new(1))
    }

    /// The same day `rhs_months` months later, or the last day of that month
    /// when it is shorter; `None` when out of range.
    pub fn checked_add_months(self, rhs_months: Months) -> (r: Option<Self>)
        ensures
            r.is_some() && rhs_months.0 > 0 ==> self@ < r.unwrap()@,
            r.is_some() ==> months_later(self, rhs_months.0 as int, r.unwrap()) && r.unwrap().valid(),
            MIN_YEAR <= (month_index(self.year_spec(), self.month_spec()) + rhs_months.0) / 12
                <= MAX_YEAR ==> r.is_some(),
    {
        proof {
            use_type_invariant(&self);
        }
        match ymd_plus_months(self.year, self.month, self.day, rhs_months.0) {
            Some((year, month, day)) => {
                proof {
                    if rhs_months.0 > 0 {
                        lemma_later_month_later_day(
                            self.year as int,
                            self.month as int,
                            self.day as int,
                            year as int,
                            month as int,
                            day as int,
                        );
                    }
                }
                Date::from_ymd(year, month, day)
            },
            None => None,
        }
    }

    /// The same day `rhs_months` months earlier, or the last day of that
    /// month when it is shorter; `None` when out of range.
    pub fn checked_sub_months(self, rhs_months: Months) -> (r: Option<Self>)
        ensures
            r.is_some() && rhs_months.0 > 0 ==> r.unwrap()@ < self@,
            r.is_some() ==> months_later(self, -(rhs_months.0 as int), r.unwrap()) && r.unwrap().valid(),
            MIN_YEAR <= (month_index(self.year_spec(), self.month_spec()) - rhs_months.0) / 12
                <= MAX_YEAR ==> r.is_some(),
    {
        proof {
            use_type_invariant(&self);
        }
        match ymd_minus_months(self.year, self.month, self.day, rhs_months.0) {
            Some((year, month, day)) => {
                proof {
                    if rhs_months.0 > 0 {
                        lemma_later_month_later_day(
                            year as int,
                            month as int,
                            day as int,
                            self.year as int,
                            self.month as int,
                            self.day as int,
                        );
                    }
                }
                Date::from_ymd(year, month, day)
            },
            None => None,
        }
    }

    /// The same month and day `rhs_years` years later (earlier when
    /// negative); the 28th when that day does not exist (29 February in a
    /// common year); `None` when out of range.
    pub fn checked_add_years(self, rhs_years: i32) -> (r: Option<Self>)
        ensures
            r.is_some() ==> {
                let d = r.unwrap();
                &&& d.year_spec() == self.year_spec() + rhs_years
                &&& d.month_spec() == self.month_spec()
                &&& d.day_spec() == if valid_ymd(
                    self.year_spec() + rhs_years,
                    self.month_spec(),
                    self.day_spec(),
                ) {
                    self.day_spec()
                } else {
                    28
                }
            },
            (MIN_YEAR <= self.year_spec() + rhs_years <= MAX_YEAR) ==> r.is_some(),
    {
        proof {
            use_type_invariant(&self);
        }
        let year = match self.year.checked_add(rhs_years) {
            Some(y) => y,
            None => return None,
        };
        match Date::from_ymd(year, self.month, self.day) {
            Some(d) => Some(d),
            None => Date::from_ymd(year, self.month, 28),
        }
    }

    /// Rolls a Saturday or Sunday forward to the next Monday; other days stay.
    pub fn weekend_roll(self) -> (r: Option<Self>)
        ensures
            (self@ - 1) % 7 <= 4 ==> r == Some(self),
            (self@ - 1) % 7 > 4 && r.is_some() ==> r.unwrap()@ == self@ + 7 - (self@ - 1) % 7,
            (self@ - 1) % 7 > 4 && self@ + 7 - (self@ - 1) % 7 <= last_day_number() ==> r.is_some(),
    {
        proof {
            use_type_invariant(&self);
            lemma_serial_bounds(self.year as int, self.month as int, self.day as int);
        }
        let weekday = self.weekday();
        if weekday > 4 {
            return self.checked_add_days(Days::new(7 - weekday as u64));
        }
        Some(self)
    }
}

} // verus!
