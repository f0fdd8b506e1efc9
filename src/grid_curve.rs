use crate::date::Date;
use crate::day_count::{fraction, DayCount};
use crate::error::{ComputeError, ErrString, QLabError, QLabResult};
use crate::value::Value;
use vstd::prelude::*;

verus! {

/// A maturity, as a day-count fraction, with its spot yield.
#[derive(Clone, Copy, Debug)]
pub struct GridPoint<V> {
    pub maturity: V,
    pub spot_yield: V,
}

/// A yield curve given by grid points and read by straight lines between
/// them: at or beyond the last maturity it gives the last yield; a time
/// that equals a grid maturity is read on the interval that ends there.
pub struct LinearInterpolation<V, D: DayCount> {
    settlement_date: Date,
    points: Vec<GridPoint<V>>,
    day_count: D,
}

/// `m < t` in the value type's order.
pub open spec fn before<V: Value>(m: V, t: V) -> bool {
    !t.le_spec(m)
}

/// The straight line from grid point `p` to grid point `q`, at `t`.
pub open spec fn grid_lerp<V: Value>(p: GridPoint<V>, q: GridPoint<V>, t: V) -> V {
    p.spot_yield.add_spec(
        q.spot_yield.sub_spec(p.spot_yield).div_spec(q.maturity.sub_spec(p.maturity)).mul_spec(
            t.sub_spec(p.maturity),
        ),
    )
}

/// Interval `i` (from point `i - 1` to point `i`) holds `t`:
/// `m[i - 1] < t <= m[i]`.
pub open spec fn grid_brackets<V: Value>(pts: Seq<GridPoint<V>>, i: int, t: V) -> bool {
    &&& 0 < i < pts.len()
    &&& before(pts[i - 1].maturity, t)
    &&& !before(pts[i].maturity, t)
}

impl<V: Value, D: DayCount> LinearInterpolation<V, D> {
    pub closed spec fn points_view(&self) -> Seq<GridPoint<V>> {
        self.points@
    }

    pub closed spec fn settlement(&self) -> Date {
        self.settlement_date
    }

    /// Builds the grid: each maturity becomes its day-count fraction from the
    /// settlement date. Fails with `InvalidInput` when the slices differ in
    /// length, and with the day-count failure when a fraction is missing.
    pub fn new(settlement_date: Date, maturities: &[Date], spot_yields: Vec<V>, day_count: D) -> (r:
        QLabResult<Self, V>)
        ensures
            maturities@.len() != spot_yields@.len() ==> r matches Err(
                QLabError::ComputeError(ComputeError::InvalidInput(_)),
            ),
            r is Ok ==> {
                let c = r->Ok_0;
                &&& c.settlement() == settlement_date
                &&& c.points_view().len() == maturities@.len()
                &&& forall|i: int|
                    0 <= i < maturities@.len() ==> fraction::<D, V>(
                        settlement_date,
                        maturities@[i],
                    ) == Some(#[trigger] c.points_view()[i].maturity)
                        && c.points_view()[i].spot_yield == spot_yields@[i]
            },
            maturities@.len() == spot_yields@.len() && (forall|i: int|
                0 <= i < maturities@.len() ==> (#[trigger] fraction::<D, V>(
                    settlement_date,
                    maturities@[i],
                )) is Some) ==> r is Ok,
    {
        if maturities.len() != spot_yields.len() {
            return Err(
                QLabError::ComputeError(
                    ComputeError::InvalidInput(
                        ErrString::new("maturities and spot_yields are different lengths"),
                    ),
                ),
            );
        }
        let mut points: Vec<GridPoint<V>> = Vec::new();
        let mut i: usize = 0;
        while i < maturities.len()
            invariant
                maturities@.len() == spot_yields@.len(),
                i <= maturities@.len(),
                points@.len() == i,
                forall|k: int|
                    0 <= k < i ==> fraction::<D, V>(settlement_date, maturities@[k]) == Some(
                        #[trigger] points@[k].maturity,
                    ) && points@[k].spot_yield == spot_yields@[k],
            decreases maturities.len() - i,
        {
            let maturity = match D::calculate_day_count_fraction::<V>(settlement_date, maturities[i]) {
                Ok(t) => t,
                Err(e) => {
                    assert(fraction::<D, V>(settlement_date, maturities@[i as int]) is None);
                    return Err(e);
                },
            };
            points.push(GridPoint { maturity, spot_yield: spot_yields[i] });
            i += 1;
        }
        Ok(LinearInterpolation { settlement_date, points, day_count })
    }

    /// The continuous yield at time `t`. Fails with `InvalidInput` on an
    /// empty grid and when `t` is not after the first maturity (unless that
    /// is also the last).
    pub fn yield_curve(&self, t: V) -> (r: QLabResult<V, V>)
        ensures
            self.points_view().len() == 0 ==> r matches Err(
                QLabError::ComputeError(ComputeError::InvalidInput(_)),
            ),
            self.points_view().len() > 0 && self.points_view().last().maturity.le_spec(t) ==> r
                == Ok::<V, QLabError<V>>(self.points_view().last().spot_yield),
            self.points_view().len() > 0 && !self.points_view().last().maturity.le_spec(t) && (
            !before(self.points_view()[0].maturity, t) || !t.le_spec(
                self.points_view().last().maturity,
            )) ==> r matches Err(QLabError::ComputeError(ComputeError::InvalidInput(_))),
            self.points_view().len() > 0 && !self.points_view().last().maturity.le_spec(t) && before(
                self.points_view()[0].maturity,
                t,
            ) && t.le_spec(self.points_view().last().maturity) ==> exists|i: int|
                grid_brackets(self.points_view(), i, t) && r == Ok::<V, QLabError<V>>(
                    grid_lerp(self.points_view()[i - 1], self.points_view()[i], t),
                ),
    {
        let ghost pts = self.points_view();
        let n = self.points.len();
        if n == 0 {
            return Err(
                QLabError::ComputeError(
                    ComputeError::InvalidInput(ErrString::new("Grid points doesn't exist")),
                ),
            );
        }
        let last_point = self.points[n - 1];
        if last_point.maturity.at_most(t) {
            return Ok(last_point.spot_yield);
        }
        if t.at_most(self.points[0].maturity) {
            return Err(
                QLabError::ComputeError(
                    ComputeError::InvalidInput(
                        ErrString::new("t is earlier than the maturity of the first grid point"),
                    ),
                ),
            );
        }
        // points[lo].maturity < t <= points[hi].maturity
        let mut lo: usize = 0;
        let mut hi: usize = n - 1;
        if t.at_most(self.points[hi].maturity) {
            while hi - lo > 1
                invariant
                    pts == self.points_view(),
                    n == pts.len(),
                    0 <= lo < hi < n,
                    before(pts[lo as int].maturity, t),
                    !before(pts[hi as int].maturity, t),
                decreases hi - lo,
            {
                let mid = lo + (hi - lo) / 2;
                if t.at_most(self.points[mid].maturity) {
                    hi = mid;
                } else {
                    lo = mid;
                }
            }
            let p = self.points[lo];
            let q = self.points[hi];
            assert(grid_brackets(pts, hi as int, t));
            return Ok(
                p.spot_yield.plus(
                    q.spot_yield.minus(p.spot_yield).over(q.maturity.minus(p.maturity)).times(
                        t.minus(p.maturity),
                    ),
                ),
            );
        }
        // Only incomparable values get here.
        Err(
            QLabError::ComputeError(
                ComputeError::InvalidInput(ErrString::new("t cannot be placed on the grid")),
            ),
        )
    }

    pub fn settlement_date(&self) -> (r: Date)
        ensures
            r == self.settlement(),
    {
        self.settlement_date
    }

    pub fn day_count_fraction(&self) -> (r: &D) {
        &self.day_count
    }
}

} // verus!
