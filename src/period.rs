use crate::date::{
    first_day_number, last_day_number, month_index, months_later, valid_ymd, Date, MAX_YEAR,
    MIN_YEAR,
};
use vstd::prelude::*;

verus! {

/// A span of calendar time that can be added to a date.
pub trait Period: Copy {
    /// Adding the span to `date` can give `target`.
    closed spec fn lands_on(self, date: Date, target: Date) -> bool {
        arbitrary()
    }

    /// Adding the span to `date` stays within the range of dates.
    closed spec fn in_range(self, date: Date) -> bool {
        arbitrary()
    }

    /// Adds the span to `date`; `None` exactly when the result leaves the
    /// range.
    fn checked_add(self, date: Date) -> (r: Option<Date>)
        ensures
            r.is_some() ==> self.lands_on(date, r.unwrap()),
            self.in_range(date) ==> r.is_some(),
    ;
}

/// A number of days.
#[derive(Clone, Copy, Debug, PartialEq, Eq, Structural, Hash, PartialOrd, Ord)]
pub struct Days(pub u64);

impl Days {
    pub fn new(num: u64) -> (r: Self)
        ensures
            r.0 == num,
    {
        Days(num)
    }
}

/// A number of months.
#[derive(Clone, Copy, Debug, PartialEq, Eq, Structural, Hash, PartialOrd, Ord)]
pub struct Months(pub u32);

impl Months {
    pub fn new(num: u32) -> (r: Self)
        ensures
            r.0 == num,
    {
        Months(num)
    }
}

/// A number of years, possibly negative.
#[derive(Clone, Copy, Debug, PartialEq, Eq, Structural, Hash, PartialOrd, Ord)]
pub struct Years(pub i32);

impl Years {
    pub fn new(num: i32) -> (r: Self)
        ensures
            r.0 == num,
    {
        Years(num)
    }
}

impl Period for Days {
    open spec fn lands_on(self, date: Date, target: Date) -> bool {
        target@ == date@ + self.0
    }

    open spec fn in_range(self, date: Date) -> bool {
        first_day_number() <= date@ + self.0 <= last_day_number()
    }

    fn checked_add(self, date: Date) -> (r: Option<Date>) {
        date.checked_add_days(self)
    }
}

impl Period for Months {
    open spec fn lands_on(self, date: Date, target: Date) -> bool {
        months_later(date, self.0 as int, target)
    }

    open spec fn in_range(self, date: Date) -> bool {
        MIN_YEAR <= (month_index(date.year_spec(), date.month_spec()) + self.0) / 12 <= MAX_YEAR
    }

    fn checked_add(self, date: Date) -> (r: Option<Date>) {
        date.checked_add_months(self)
    }
}

impl Period for Years {
    open spec fn lands_on(self, date: Date, target: Date) -> bool {
        &&& target.year_spec() == date.year_spec() + self.0
        &&& target.month_spec() == date.month_spec()
        &&& target.day_spec() == if valid_ymd(
            date.year_spec() + self.0,
            date.month_spec(),
            date.day_spec(),
        ) {
            date.day_spec()
        } else {
            28
        }
    }

    open spec fn in_range(self, date: Date) -> bool {
        MIN_YEAR <= date.year_spec() + self.0 <= MAX_YEAR
    }

    fn checked_add(self, date: Date) -> (r: Option<Date>) {
        date.checked_add_years(self.0)
    }
}

} // verus!
