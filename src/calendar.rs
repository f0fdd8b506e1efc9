use crate::date::{first_day_number, last_day_number, Date};
use crate::period::Period;
use vstd::prelude::*;

verus! {

/// A business-day calendar.
pub trait Calendar {
    /// `date` is a business day of this calendar.
    closed spec fn business_day(&self, date: Date) -> bool {
        arbitrary()
    }

    fn is_business_day(&self, date: Date) -> (r: bool)
        ensures
            r == self.business_day(date),
    ;

    fn is_holiday(&self, date: Date) -> (r: bool)
        ensures
            r == !self.business_day(date),
    {
        !self.is_business_day(date)
    }
}

/// The calendar whose only holidays are Saturdays and Sundays.
#[derive(Default, Debug, Clone, Copy)]
pub struct WeekendsOnly;

impl Calendar for WeekendsOnly {
    open spec fn business_day(&self, date: Date) -> bool {
        (date@ - 1) % 7 < 5
    }

    fn is_business_day(&self, date: Date) -> (r: bool) {
        date.weekday() < 5
    }
}

/// How a date that falls on a holiday is moved to a business day.
#[derive(Clone, Copy, PartialEq, Eq, Structural, Debug)]
pub enum DateRolling {
    /// Keep the date.
    Unadjusted,
    /// The first business day on or after it.
    Following,
    /// The following business day, unless that is in another month than the
    /// start date; then the preceding one.
    ModifiedFollowing,
    /// The last business day on or before it.
    Preceding,
    /// The preceding business day, unless that is in another month than the
    /// start date; then the following one.
    ModifiedPreceding,
}

/// How many other conventions a convention is defined through.
pub open spec fn rolling_rank(rolling: DateRolling) -> nat {
    match rolling {
        DateRolling::Unadjusted => 0,
        DateRolling::Following | DateRolling::Preceding => 1,
        _ => 2,
    }
}

/// The date with day number `k` is a holiday of `cal`.
pub open spec fn holiday_at<C: Calendar>(cal: &C, k: int) -> bool {
    exists|d: Date| #![trigger d@] d@ == k && d.valid() && !cal.business_day(d)
}

/// Every day from `from` (included) to `to` (excluded) is a holiday of `cal`.
pub open spec fn holidays_between<C: Calendar>(cal: &C, from: int, to: int) -> bool {
    forall|k: int| from <= k < to ==> #[trigger] holiday_at(cal, k)
}

/// Following cannot succeed: the period leaves the range, or every day from
/// where it lands to the last date is a holiday.
pub open spec fn following_blocked<P: Period, C: Calendar>(period: P, date: Date, cal: &C) -> bool {
    !period.in_range(date) || exists|u: Date|
        #![trigger period.lands_on(date, u)]
        period.lands_on(date, u) && holidays_between(cal, u@, last_day_number() + 1)
}

/// Preceding cannot succeed: the period leaves the range, or every day from
/// the first date to where it lands is a holiday.
pub open spec fn preceding_blocked<P: Period, C: Calendar>(period: P, date: Date, cal: &C) -> bool {
    !period.in_range(date) || exists|u: Date|
        #![trigger period.lands_on(date, u)]
        period.lands_on(date, u) && holidays_between(cal, first_day_number(), u@ + 1)
}

impl Date {
    /// Adds `period` to the date.
    pub fn checked_add<P: Period>(self, period: P) -> (r: Option<Self>)
        ensures
            r.is_some() ==> period.lands_on(self, r.unwrap()),
            period.in_range(self) ==> r.is_some(),
    {
        period.checked_add(self)
    }

    /// Adds `period` to the date and moves the result to a business day of
    /// `calendar` as `rolling` says; `None` when a date leaves the range.
    pub fn checked_roll<P: Period, C: Calendar>(
        self,
        period: P,
        calendar: &C,
        rolling: DateRolling,
    ) -> (r: Option<Self>)
        ensures
            r.is_some() ==> match rolling {
                DateRolling::Unadjusted => period.lands_on(self, r.unwrap()),
                DateRolling::Following => exists|u: Date|
                    #![trigger period.lands_on(self, u)]
                    period.lands_on(self, u) && u@ <= r.unwrap()@ && calendar.business_day(
                        r.unwrap(),
                    ) && holidays_between(calendar, u@, r.unwrap()@),
                DateRolling::Preceding => exists|u: Date|
                    #![trigger period.lands_on(self, u)]
                    period.lands_on(self, u) && r.unwrap()@ <= u@ && calendar.business_day(
                        r.unwrap(),
                    ) && holidays_between(calendar, r.unwrap()@ + 1, u@ + 1),
                _ => calendar.business_day(r.unwrap()),
            },
            r.is_none() ==> match rolling {
                DateRolling::Unadjusted => !period.in_range(self),
                DateRolling::Following => following_blocked(period, self, calendar),
                DateRolling::Preceding => preceding_blocked(period, self, calendar),
                _ => following_blocked(period, self, calendar) || preceding_blocked(
                    period,
                    self,
                    calendar,
                ),
            },
        decreases rolling_rank(rolling),
    {
        match rolling {
            DateRolling::Unadjusted => self.checked_add(period),
            DateRolling::Following => {
                let start = match self.checked_roll(period, calendar, DateRolling::Unadjusted) {
                    Some(d) => d,
                    None => return None,
                };
                let mut ret = start;
                let _ = ret.serial_date();
                while !calendar.is_business_day(ret)
                    invariant
                        rolling == DateRolling::Following,
                        period.lands_on(self, start),
                        start@ <= ret@,
                        ret.valid(),
                        holidays_between(calendar, start@, ret@),
                    decreases 100_000_000 - ret@,
                {
                    let next = match ret.succ_opt() {
                        Some(d) => d,
                        None => {
                            assert(holidays_between(calendar, start@, last_day_number() + 1)) by {
                                assert forall|k: int| start@ <= k < last_day_number() + 1 implies #[trigger] holiday_at(
                                    calendar,
                                    k,
                                ) by {
                                    if k == ret@ {
                                        assert(ret@ == k && ret.valid() && !calendar.business_day(ret));
                                    }
                                }
                            }
                            assert(period.lands_on(self, start) && holidays_between(
                                calendar,
                                start@,
                                last_day_number() + 1,
                            ));
                            return None;
                        },
                    };
                    assert(holidays_between(calendar, start@, next@)) by {
                        assert forall|k: int| start@ <= k < next@ implies #[trigger] holiday_at(
                            calendar,
                            k,
                        ) by {
                            if k == ret@ {
                                assert(ret@ == k && ret.valid() && !calendar.business_day(ret));
                            }
                        }
                    }
                    ret = next;
                }
                Some(ret)
            },
            DateRolling::ModifiedFollowing => {
                let ret = match self.checked_roll(period, calendar, DateRolling::Following) {
                    Some(d) => d,
                    None => return None,
                };
                if ret.month() == self.month() {
                    Some(ret)
                } else {
                    self.checked_roll(period, calendar, DateRolling::Preceding)
                }
            },
            DateRolling::Preceding => {
                let start = match self.checked_roll(period, calendar, DateRolling::Unadjusted) {
                    Some(d) => d,
                    None => return None,
                };
                let mut ret = start;
                let _ = ret.serial_date();
                while !calendar.is_business_day(ret)
                    invariant
                        rolling == DateRolling::Preceding,
                        period.lands_on(self, start),
                        ret@ <= start@,
                        ret.valid(),
                        holidays_between(calendar, ret@ + 1, start@ + 1),
                    decreases ret@ + 100_000_000,
                {
                    let prev = match ret.pred_opt() {
                        Some(d) => d,
                        None => {
                            assert(holidays_between(calendar, first_day_number(), start@ + 1)) by {
                                assert forall|k: int| first_day_number() <= k < start@ + 1 implies #[trigger] holiday_at(
                                    calendar,
                                    k,
                                ) by {
                                    if k == ret@ {
                                        assert(ret@ == k && ret.valid() && !calendar.business_day(ret));
                                    }
                                }
                            }
                            assert(period.lands_on(self, start) && holidays_between(
                                calendar,
                                first_day_number(),
                                start@ + 1,
                            ));
                            return None;
                        },
                    };
                    assert(holidays_between(calendar, prev@ + 1, start@ + 1)) by {
                        assert forall|k: int| prev@ + 1 <= k < start@ + 1 implies #[trigger] holiday_at(
                            calendar,
                            k,
                        ) by {
                            if k == ret@ {
                                assert(ret@ == k && ret.valid() && !calendar.business_day(ret));
                            }
                        }
                    }
                    ret = prev;
                }
                Some(ret)
            },
            DateRolling::ModifiedPreceding => {
                let ret = match self.checked_roll(period, calendar, DateRolling::Preceding) {
                    Some(d) => d,
                    None => return None,
                };
                if ret.month() == self.month() {
                    Some(ret)
                } else {
                    self.checked_roll(period, calendar, DateRolling::Following)
                }
            },
        }
    }
}

} // verus!
