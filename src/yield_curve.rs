use crate::date::Date;
use crate::day_count::{fraction, DayCount};
use crate::error::{ComputeError, ErrString, InterpolationError, QLabError, QLabResult};
use crate::interpolation::{fit_error, firsts, Interpolator};
use crate::field::{
    is_exponential, is_ordered_field, lemma_add_assoc, lemma_add_comm, lemma_add_neg,
    lemma_add_zero, lemma_exp_add, lemma_exp_zero, lemma_lit_neg, lemma_lit_nonzero,
    lemma_mul_comm, lemma_mul_neg, lemma_mul_zero, lemma_sub_add, lemma_zero_div,
};
use crate::value::{one, Value};
use std::marker::PhantomData;
use vstd::prelude::*;

verus! {

/// A yield curve: one interpolation method fitted over (day-count fraction,
/// continuously compounded spot yield) pairs, measured from a settlement
/// date under the day-count convention `D`.
pub struct YieldCurve<D: DayCount, V: Value, I: Interpolator<V>> {
    settlement_date: Date,
    interpolator: I,
    _day_count: PhantomData<D>,
    _value: PhantomData<V>,
}

/// Every maturity has a day-count fraction from the settlement date.
pub open spec fn fractions_exist<D: DayCount, V: Value>(settlement: Date, maturities: Seq<Date>) -> bool {
    forall|i: int| 0 <= i < maturities.len() ==> (#[trigger] fraction::<D, V>(settlement, maturities[i])) is Some
}

/// The knots a curve is fitted to: each maturity's fraction with its yield.
pub open spec fn curve_knots<D: DayCount, V: Value>(
    settlement: Date,
    maturities: Seq<Date>,
    spot_yields: Seq<V>,
) -> Seq<(V, V)> {
    Seq::new(
        maturities.len(),
        |i: int| (fraction::<D, V>(settlement, maturities[i]).unwrap(), spot_yields[i]),
    )
}

/// `exp(-t * y)` with the product formed as `(-t) * y`.
pub open spec fn zero_coupon_discount<V: Value>(t: V, y: V) -> V {
    t.neg_spec().mul_spec(y).exp_spec()
}

/// `exp(t1 * y1 - t2 * y2)`.
pub open spec fn forward_discount<V: Value>(t1: V, y1: V, t2: V, y2: V) -> V {
    t1.mul_spec(y1).sub_spec(t2.mul_spec(y2)).exp_spec()
}

impl<D: DayCount, V: Value, I: Interpolator<V>> YieldCurve<D, V, I> {
    pub closed spec fn settlement(&self) -> Date {
        self.settlement_date
    }

    pub closed spec fn curve(&self) -> I {
        self.interpolator
    }

    /// The continuous yield at time `t` (a day-count fraction).
    pub open spec fn yield_at(&self, t: V) -> Result<V, InterpolationError<V>> {
        self.curve().value_at(t)
    }

    /// The discount factor from `d2` back to `d1` when both dates are valid
    /// queries: `Err(None)` when a day-count fraction is missing, `Err(Some(e))`
    /// when the curve fails with `e`.
    pub open spec fn discount_spec(&self, d1: Date, d2: Date) -> Result<V, Option<InterpolationError<V>>> {
        let s = self.settlement();
        match fraction::<D, V>(s, d2) {
            None => Err(None),
            Some(t2) => match self.yield_at(t2) {
                Err(e) => Err(Some(e)),
                Ok(y2) => if d1 == s {
                    Ok(zero_coupon_discount(t2, y2))
                } else {
                    match fraction::<D, V>(s, d1) {
                        None => Err(None),
                        Some(t1) => match self.yield_at(t1) {
                            Err(e) => Err(Some(e)),
                            Ok(y1) => Ok(forward_discount(t1, y1, t2, y2)),
                        },
                    }
                },
            },
        }
    }

    /// Builds the curve: converts each maturity to a day-count fraction from
    /// the settlement date and fits the interpolation method to the fractions
    /// and the spot yields. Fails with `InvalidInput` when the two slices
    /// differ in length, and with the day-count or fit failure otherwise.
    pub fn new(settlement_date: Date, maturities: &[Date], spot_yields: &[V]) -> (r: QLabResult<
        Self,
        V,
    >)
        ensures
            maturities@.len() != spot_yields@.len() ==> r matches Err(
                QLabError::ComputeError(ComputeError::InvalidInput(_)),
            ),
            maturities@.len() == spot_yields@.len() && !fractions_exist::<D, V>(settlement_date, maturities@)
                ==> r matches Err(QLabError::ComputeError(_)),
            maturities@.len() == spot_yields@.len() && fractions_exist::<D, V>(settlement_date, maturities@)
                ==> match r {
                Ok(c) => fit_error(
                    firsts(curve_knots::<D, V>(settlement_date, maturities@, spot_yields@)),
                    I::min_points(),
                ).is_none() && c.settlement() == settlement_date && c.curve().fitted_from(
                    curve_knots::<D, V>(settlement_date, maturities@, spot_yields@),
                ),
                Err(QLabError::InterpolationError(e)) => fit_error(
                    firsts(curve_knots::<D, V>(settlement_date, maturities@, spot_yields@)),
                    I::min_points(),
                ) == Some(e),
                Err(QLabError::ComputeError(_)) => false,
            },
    {
        if maturities.len() != spot_yields.len() {
            return Err(
                QLabError::ComputeError(
                    ComputeError::InvalidInput(
                        ErrString::new("maturities and spot_yields are different lengths"),
                    ),
                ),
            );
        }
        let ghost knots = curve_knots::<D, V>(settlement_date, maturities@, spot_yields@);
        let mut val: Vec<(V, V)> = Vec::new();
        let mut i: usize = 0;
        while i < maturities.len()
            invariant
                maturities@.len() == spot_yields@.len(),
                i <= maturities@.len(),
                forall|k: int| 0 <= k < i ==> (#[trigger] fraction::<D, V>(settlement_date, maturities@[k])) is Some,
                val@ =~= curve_knots::<D, V>(settlement_date, maturities@, spot_yields@).take(i as int),
            decreases maturities.len() - i,
        {
            let t = match D::calculate_day_count_fraction::<V>(settlement_date, maturities[i]) {
                Ok(t) => t,
                Err(e) => {
                    assert(!fractions_exist::<D, V>(settlement_date, maturities@)) by {
                        assert(fraction::<D, V>(settlement_date, maturities@[i as int]) is None);
                    }
                    return Err(e);
                },
            };
            val.push((t, spot_yields[i]));
            i += 1;
        }
        assert(val@ =~= knots);
        match I::default().try_fit(val.as_slice()) {
            Ok(interpolator) => Ok(
                YieldCurve {
                    settlement_date,
                    interpolator,
                    _day_count: PhantomData,
                    _value: PhantomData,
                },
            ),
            Err(e) => Err(QLabError::InterpolationError(e)),
        }
    }

    /// The discount factor between `d1` and `d2`. Fails with `InvalidInput`
    /// when `d2` is before `d1` or either date is before the settlement date;
    /// day-count and interpolation failures are passed on unchanged; otherwise
    /// the result is `discount_spec`.
    pub fn discount_factor(&self, d1: Date, d2: Date) -> (r: QLabResult<V, V>)
        ensures
            (d2@ < d1@ || d1@ < self.settlement()@ || d2@ < self.settlement()@) ==> r matches Err(
                QLabError::ComputeError(ComputeError::InvalidInput(_)),
            ),
            !(d2@ < d1@ || d1@ < self.settlement()@ || d2@ < self.settlement()@) ==> match r {
                Ok(v) => self.discount_spec(d1, d2) == Ok::<V, Option<InterpolationError<V>>>(v),
                Err(QLabError::InterpolationError(e)) => self.discount_spec(d1, d2) == Err::<
                    V,
                    Option<InterpolationError<V>>,
                >(Some(e)),
                Err(QLabError::ComputeError(_)) => self.discount_spec(d1, d2) == Err::<
                    V,
                    Option<InterpolationError<V>>,
                >(None),
            },
    {
        let s = self.settlement_date.serial_date();
        let s1 = d1.serial_date();
        let s2 = d2.serial_date();
        if s2 < s1 {
            return Err(
                QLabError::ComputeError(
                    ComputeError::InvalidInput(ErrString::new("d1 must not be after d2")),
                ),
            );
        }
        if s1 < s || s2 < s {
            return Err(
                QLabError::ComputeError(
                    ComputeError::InvalidInput(
                        ErrString::new("a date precedes the settlement date"),
                    ),
                ),
            );
        }
        let t2 = match D::calculate_day_count_fraction::<V>(self.settlement_date, d2) {
            Ok(t) => t,
            Err(e) => return Err(e),
        };
        let y2 = match self.interpolator.try_value(t2) {
            Ok(y) => y,
            Err(e) => return Err(QLabError::InterpolationError(e)),
        };
        if d1 == self.settlement_date {
            return Ok(t2.negated().times(y2).exp());
        }
        let t1 = match D::calculate_day_count_fraction::<V>(self.settlement_date, d1) {
            Ok(t) => t,
            Err(e) => return Err(e),
        };
        let y1 = match self.interpolator.try_value(t1) {
            Ok(y) => y,
            Err(e) => return Err(QLabError::InterpolationError(e)),
        };
        Ok(t1.times(y1).minus(t2.times(y2)).exp())
    }
}

/// `(-t) * y == -(t * y)`.
proof fn lemma_neg_times<V: Value>(t: V, y: V)
    requires
        is_ordered_field::<V>(),
    ensures
        t.neg_spec().mul_spec(y) == t.mul_spec(y).neg_spec(),
{
    lemma_mul_comm(t.neg_spec(), y);
    lemma_mul_neg(y, t);
    lemma_mul_comm(y, t);
}

/// The forward-discount identity: for settlement `s < d1 <= d2`, the discount
/// factor from `s` to `d2` is the one from `s` to `d1` times the one from `d1`
/// to `d2` (in exact arithmetic with an exponential `exp`).
pub proof fn lemma_forward_discount<D: DayCount, V: Value, I: Interpolator<V>>(
    curve: YieldCurve<D, V, I>,
    d1: Date,
    d2: Date,
)
    requires
        is_ordered_field::<V>(),
        is_exponential::<V>(),
        curve.settlement()@ < d1@,
        curve.discount_spec(curve.settlement(), d1) is Ok,
        curve.discount_spec(curve.settlement(), d2) is Ok,
    ensures
        curve.discount_spec(d1, d2) is Ok,
        curve.discount_spec(curve.settlement(), d2)->Ok_0 == curve.discount_spec(
            curve.settlement(),
            d1,
        )->Ok_0.mul_spec(curve.discount_spec(d1, d2)->Ok_0),
{
    let s = curve.settlement();
    assert(d1 != s);
    let t1 = fraction::<D, V>(s, d1)->Some_0;
    let t2 = fraction::<D, V>(s, d2)->Some_0;
    let y1 = curve.yield_at(t1)->Ok_0;
    let y2 = curve.yield_at(t2)->Ok_0;
    let a = t1.mul_spec(y1);
    let b = t2.mul_spec(y2);
    lemma_neg_times(t1, y1);
    lemma_neg_times(t2, y2);
    lemma_sub_add(a, b);
    lemma_exp_add(a.neg_spec(), a.add_spec(b.neg_spec()));
    lemma_add_assoc(a.neg_spec(), a, b.neg_spec());
    lemma_add_neg(a);
    lemma_add_comm(a.neg_spec(), a);
    lemma_add_zero(b.neg_spec());
}

/// The discount factor between a date and itself is one (in exact
/// arithmetic with an exponential `exp`); at the settlement date this needs
/// the convention to count no days from a date to itself.
pub proof fn lemma_equal_dates_discount_one<D: DayCount, V: Value, I: Interpolator<V>>(
    curve: YieldCurve<D, V, I>,
    d: Date,
)
    requires
        is_ordered_field::<V>(),
        is_exponential::<V>(),
        curve.discount_spec(d, d) is Ok,
        d == curve.settlement() ==> D::day_count(d, d) == Some(0int) && D::year_length() != 0,
    ensures
        curve.discount_spec(d, d) == Ok::<V, Option<InterpolationError<V>>>(one()),
{
    let s = curve.settlement();
    let t = fraction::<D, V>(s, d)->Some_0;
    let y = curve.yield_at(t)->Ok_0;
    lemma_exp_zero::<V>();
    if d == s {
        lemma_lit_nonzero::<V>(D::year_length());
        lemma_zero_div(V::lit_spec(D::year_length()));
        lemma_lit_neg::<V>(0);
        lemma_mul_zero(y);
    } else {
        lemma_add_neg(t.mul_spec(y));
    }
}

} // verus!
