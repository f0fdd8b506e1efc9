use crate::error::InterpolationError;
use crate::linear_algebra::matrix4::Vector4;
use crate::field::{
    is_ordered_field, lemma_add_neg, lemma_field_preorder, lemma_mul_zero, lemma_sub_zero,
    lemma_zero_div,
};
use crate::value::{is_total_preorder, lemma_le_total, lemma_le_transitive, one, zero, Value};
use vstd::prelude::*;

pub mod catmull_rom;
pub mod hermite;
pub mod linear;
pub mod natural_cubic;

verus! {

/// Read access to the abscissa of a stored point.
pub trait Abscissa<V: Value> {
    spec fn x_spec(&self) -> V;

    fn x(&self) -> (r: &V)
        ensures
            *r == self.x_spec(),
    ;
}

/// A sample point.
#[derive(Clone, Copy, Debug)]
pub struct Point2D<V> {
    pub x: V,
    pub y: V,
}

/// A sample point with the derivative `dy/dx` at it.
#[derive(Clone, Copy, Debug)]
pub struct Point2DWithSlope<V> {
    pub coordinate: Point2D<V>,
    pub dydx: V,
}

impl<V> Point2DWithSlope<V> {
    pub fn new(x: V, y: V, dydx: V) -> (r: Self)
        ensures
            r.coordinate.x == x,
            r.coordinate.y == y,
            r.dydx == dydx,
    {
        Point2DWithSlope { coordinate: Point2D { x, y }, dydx }
    }
}

impl<V: Value> Abscissa<V> for Point2D<V> {
    open spec fn x_spec(&self) -> V {
        self.x
    }

    fn x(&self) -> (r: &V) {
        &self.x
    }
}

impl<V: Value> Abscissa<V> for Point2DWithSlope<V> {
    open spec fn x_spec(&self) -> V {
        self.coordinate.x
    }

    fn x(&self) -> (r: &V) {
        &self.coordinate.x
    }
}

/// The abscissas of a sequence of points.
pub open spec fn abscissas<V: Value, P: Abscissa<V>>(ps: Seq<P>) -> Seq<V> {
    Seq::new(ps.len(), |i: int| ps[i].x_spec())
}

/// Successive values never decrease.
pub open spec fn ascending<V: Value>(xs: Seq<V>) -> bool {
    forall|i: int| 0 <= i < xs.len() - 1 ==> #[trigger] xs[i].le_spec(xs[i + 1])
}

/// Each value is strictly below its successor.
pub open spec fn below_next<V: Value>(xs: Seq<V>, i: int) -> bool {
    xs[i].le_spec(xs[i + 1]) && !xs[i + 1].le_spec(xs[i])
}

/// Successive values strictly increase.
pub open spec fn strictly_ascending<V: Value>(xs: Seq<V>) -> bool {
    forall|i: int| 0 <= i < xs.len() - 1 ==> #[trigger] below_next(xs, i)
}

/// `i` starts the interval that holds `x`: `xs[i] <= x < xs[i + 1]`.
pub open spec fn brackets<V: Value>(xs: Seq<V>, i: int, x: V) -> bool {
    &&& 0 <= i < xs.len() - 1
    &&& xs[i].le_spec(x)
    &&& !xs[i + 1].le_spec(x)
}

/// Bisection between `lo` (at or below `x`) and `hi` (above it): halves the
/// range at `lo + (hi - lo) / 2` until the two are neighbours, and gives `lo`.
pub open spec fn bisect<V: Value>(xs: Seq<V>, x: V, lo: int, hi: int) -> int
    decreases hi - lo,
{
    if hi - lo <= 1 {
        lo
    } else {
        let mid = lo + (hi - lo) / 2;
        if xs[mid].le_spec(x) {
            bisect(xs, x, mid, hi)
        } else {
            bisect(xs, x, lo, mid)
        }
    }
}

/// What the boundary locator answers for `x` over `xs`. Over an ascending
/// sequence of a totally preordered type, the index is the one interval that
/// holds `x` (`lemma_locate_brackets`).
pub open spec fn locate<V: Value>(xs: Seq<V>, x: V) -> Result<int, InterpolationError<V>> {
    if xs.len() == 0 {
        Err(InterpolationError::InsufficientPointsError(0))
    } else if !xs[0].le_spec(x) {
        Err(InterpolationError::OutOfLowerBound(x))
    } else if xs[xs.len() - 1].le_spec(x) {
        Err(InterpolationError::OutOfUpperBound(x))
    } else {
        Ok(bisect(xs, x, 0, xs.len() - 1))
    }
}

/// Bisection keeps its end points around `x`, so it ends on an interval that
/// holds `x`.
pub proof fn lemma_bisect_brackets<V: Value>(xs: Seq<V>, x: V, lo: int, hi: int)
    requires
        0 <= lo < hi < xs.len(),
        xs[lo].le_spec(x),
        !xs[hi].le_spec(x),
    ensures
        brackets(xs, bisect(xs, x, lo, hi), x),
    decreases hi - lo,
{
    if hi - lo > 1 {
        let mid = lo + (hi - lo) / 2;
        if xs[mid].le_spec(x) {
            lemma_bisect_brackets(xs, x, mid, hi);
        } else {
            lemma_bisect_brackets(xs, x, lo, mid);
        }
    }
}

/// The locator never fails on a query inside an interval, and over an
/// ascending sequence of a totally preordered type it answers that interval.
pub proof fn lemma_locate_brackets<V: Value>(xs: Seq<V>, i: int, x: V)
    requires
        is_total_preorder::<V>(),
        ascending(xs),
        brackets(xs, i, x),
    ensures
        locate(xs, x) == Ok::<int, InterpolationError<V>>(i),
{
    let n = xs.len();
    lemma_ascending_le(xs, 0, i);
    lemma_le_transitive(xs[0], xs[i], x);
    lemma_ascending_le(xs, i + 1, n - 1);
    if xs[n - 1].le_spec(x) {
        lemma_le_transitive(xs[i + 1], xs[n - 1], x);
    }
    lemma_bisect_brackets(xs, x, 0, n - 1);
    lemma_brackets_unique(xs, i, bisect(xs, x, 0, n - 1), x);
}

/// Over an ascending sequence, a smaller index holds a smaller value.
pub proof fn lemma_ascending_le<V: Value>(xs: Seq<V>, i: int, j: int)
    requires
        is_total_preorder::<V>(),
        ascending(xs),
        0 <= i <= j < xs.len(),
    ensures
        xs[i].le_spec(xs[j]),
    decreases j - i,
{
    if i == j {
        lemma_le_total(xs[i], xs[i]);
    } else {
        lemma_ascending_le(xs, i, j - 1);
        assert(xs[j - 1].le_spec(xs[(j - 1) + 1]));
        lemma_le_transitive(xs[i], xs[j - 1], xs[j]);
    }
}

/// When `x` is at or above `xs[lo]` but below the last value, some interval
/// from `lo` on holds it.
pub proof fn lemma_bracket_exists<V: Value>(xs: Seq<V>, lo: int, x: V)
    requires
        0 <= lo < xs.len(),
        xs[lo].le_spec(x),
        !xs[xs.len() - 1].le_spec(x),
    ensures
        exists|i: int| brackets(xs, i, x),
    decreases xs.len() - lo,
{
    if xs[lo + 1].le_spec(x) {
        lemma_bracket_exists(xs, lo + 1, x);
    } else {
        assert(brackets(xs, lo, x));
    }
}

/// Over an ascending sequence, at most one interval holds a given value.
pub proof fn lemma_brackets_unique<V: Value>(xs: Seq<V>, i: int, j: int, x: V)
    requires
        is_total_preorder::<V>(),
        ascending(xs),
        brackets(xs, i, x),
        brackets(xs, j, x),
    ensures
        i == j,
{
    if i < j {
        lemma_ascending_le(xs, i + 1, j);
        lemma_le_transitive(xs[i + 1], xs[j], x);
    } else if j < i {
        lemma_ascending_le(xs, j + 1, i);
        lemma_le_transitive(xs[j + 1], xs[i], x);
    }
}

/// Over a strictly ascending sequence, the knot `xs[i]` (not the last) lies in
/// the interval that starts at it.
pub proof fn lemma_locate_knot<V: Value>(xs: Seq<V>, i: int)
    requires
        is_total_preorder::<V>(),
        strictly_ascending(xs),
        0 <= i < xs.len() - 1,
    ensures
        ascending(xs),
        !xs[xs.len() - 1].le_spec(xs[i]),
        locate(xs, xs[i]) == Ok::<int, InterpolationError<V>>(i),
{
    let n = xs.len();
    assert(ascending(xs)) by {
        assert forall|k: int| 0 <= k < xs.len() - 1 implies #[trigger] xs[k].le_spec(xs[k + 1]) by {
            assert(below_next(xs, k));
        }
    }
    assert(below_next(xs, i));
    lemma_ascending_le(xs, 0, i);
    lemma_ascending_le(xs, i + 1, n - 1);
    if xs[n - 1].le_spec(xs[i]) {
        lemma_le_transitive(xs[i + 1], xs[n - 1], xs[i]);
    }
    lemma_le_total(xs[i], xs[i]);
    assert(brackets(xs, i, xs[i]));
    lemma_locate_brackets(xs, i, xs[i]);
}

/// At the start of its interval, the monomial basis is `[0, 0, 0, 1]`.
pub proof fn lemma_monomials_at_start<V: Value>(x0: V, h: V)
    requires
        is_ordered_field::<V>(),
        h != zero::<V>(),
    ensures
        monomials(x0, x0, h) == (Vector4 { x: zero::<V>(), y: zero::<V>(), z: zero::<V>(), w: one::<V>() }),
{
    lemma_add_neg(x0);
    lemma_zero_div(h);
    lemma_mul_zero(zero::<V>());
}

/// In a field, two strictly ordered values have a nonzero difference.
pub proof fn lemma_gap_nonzero<V: Value>(a: V, b: V)
    requires
        is_ordered_field::<V>(),
        !b.le_spec(a),
    ensures
        b.sub_spec(a) != zero::<V>(),
{
    lemma_sub_zero(b, a);
    lemma_field_preorder::<V>();
    lemma_le_total(a, a);
}

/// Finds the index `i` with `points[i].x <= x < points[i + 1].x`: an exact hit
/// on a knot resolves to the interval that starts at that knot. Fails when
/// there are no points, when `x` lies below the first abscissa, and when no
/// interval starts at or below `x` and ends above it. A binary search.
pub fn find_index_at_left_boundary<V: Value, P: Abscissa<V>>(points: &[P], x: V) -> (r: Result<
    usize,
    InterpolationError<V>,
>)
    requires
        ascending(abscissas(points@)),
    ensures
        match r {
            Ok(i) => brackets(abscissas(points@), i as int, x) && locate(abscissas(points@), x)
                == Ok::<int, InterpolationError<V>>(i as int),
            Err(e) => locate(abscissas(points@), x) == Err::<int, InterpolationError<V>>(e),
        },
{
    let ghost xs = abscissas(points@);
    let n = points.len();
    if n == 0 {
        return Err(InterpolationError::InsufficientPointsError(0));
    }
    if !points[0].x().at_most(x) {
        return Err(InterpolationError::OutOfLowerBound(x));
    }
    if points[n - 1].x().at_most(x) {
        return Err(InterpolationError::OutOfUpperBound(x));
    }
    let mut lo: usize = 0;
    let mut hi: usize = n - 1;
    while hi - lo > 1
        invariant
            xs == abscissas(points@),
            n == points.len(),
            0 <= lo < hi < n,
            xs[lo as int].le_spec(x),
            !xs[hi as int].le_spec(x),
            bisect(xs, x, lo as int, hi as int) == bisect(xs, x, 0, n - 1),
        decreases hi - lo,
    {
        let mid = lo + (hi - lo) / 2;
        if points[mid].x().at_most(x) {
            lo = mid;
        } else {
            hi = mid;
        }
    }
    assert(brackets(xs, lo as int, x));
    Ok(lo)
}

/// The monomial basis `[d^3, d^2, d, 1]` at the normalized position
/// `d = (x - x0) / h` of `x` in an interval that starts at `x0` and is `h` long.
pub open spec fn monomials<V: Value>(x: V, x0: V, h: V) -> Vector4<V> {
    let delta = x.sub_spec(x0).div_spec(h);
    let delta2 = delta.mul_spec(delta);
    let delta3 = delta2.mul_spec(delta);
    Vector4 { x: delta3, y: delta2, z: delta, w: one() }
}

/// Builds the monomial basis of `x` in an interval that starts at `x0` and is
/// `h` long.
pub fn monomial_basis<V: Value>(x: V, x0: V, h: V) -> (r: Vector4<V>)
    ensures
        r == monomials(x, x0, h),
{
    let delta = x.minus(x0).over(h);
    let delta2 = delta.times(delta);
    let delta3 = delta2.times(delta);
    Vector4::new(delta3, delta2, delta, V::from_i32(1))
}

/// The first components of a sequence of pairs.
pub open spec fn firsts<V, T>(pts: Seq<(V, T)>) -> Seq<V> {
    Seq::new(pts.len(), |i: int| pts[i].0)
}

/// The points of a sequence of `(x, y)` pairs.
pub open spec fn points_of<V>(pts: Seq<(V, V)>) -> Seq<Point2D<V>> {
    Seq::new(pts.len(), |i: int| Point2D { x: pts[i].0, y: pts[i].1 })
}

/// Copies `(x, y)` pairs into points.
pub fn points_from_pairs<V: Value>(xs_and_ys: &[(V, V)]) -> (r: Vec<Point2D<V>>)
    ensures
        r@ == points_of(xs_and_ys@),
        abscissas(r@) == firsts(xs_and_ys@),
{
    let mut points: Vec<Point2D<V>> = Vec::new();
    let mut i: usize = 0;
    while i < xs_and_ys.len()
        invariant
            i <= xs_and_ys.len(),
            points@ == points_of(xs_and_ys@).take(i as int),
        decreases xs_and_ys.len() - i,
    {
        let (x, y) = xs_and_ys[i];
        points.push(Point2D { x, y });
        i += 1;
    }
    assert(points@ =~= points_of(xs_and_ys@));
    assert(abscissas(points@) =~= firsts(xs_and_ys@));
    points
}

/// Tells whether the abscissas of `points` never decrease.
pub fn is_ascending<V: Value, P: Abscissa<V>>(points: &[P]) -> (r: bool)
    ensures
        r == ascending(abscissas(points@)),
{
    let ghost xs = abscissas(points@);
    let mut i: usize = 1;
    while i < points.len()
        invariant
            xs == abscissas(points@),
            1 <= i,
            forall|k: int| 0 <= k < i - 1 && k < xs.len() - 1 ==> #[trigger] xs[k].le_spec(
                xs[k + 1],
            ),
        decreases points.len() - i,
    {
        if !points[i - 1].x().at_most(*points[i].x()) {
            assert(!xs[(i - 1) as int].le_spec(xs[(i - 1) + 1]));
            return false;
        }
        i += 1;
    }
    true
}

/// The failure, if any, of fitting a method that needs at least `min` knots to
/// knots with abscissas `xs`: too few knots, or an abscissa below its
/// predecessor.
pub open spec fn fit_error<V: Value>(xs: Seq<V>, min: nat) -> Option<InterpolationError<V>> {
    if xs.len() < min {
        Some(InterpolationError::InsufficientPointsError(xs.len() as usize))
    } else if !ascending(xs) {
        Some(InterpolationError::PointOrderError)
    } else {
        None
    }
}

/// The shared fit/evaluate capability of the interpolation methods.
pub trait Interpolator<V: Value>: Sized + Default {
    /// The fewest knots the method fits.
    closed spec fn min_points() -> nat {
        arbitrary()
    }

    /// `self` is what fitting the knots `pts` gives.
    closed spec fn fitted_from(&self, pts: Seq<(V, V)>) -> bool {
        arbitrary()
    }

    /// The interpolated value at `x`, or why there is none.
    closed spec fn value_at(&self, x: V) -> Result<V, InterpolationError<V>> {
        arbitrary()
    }

    /// Fits the method to `xs_and_ys`; the receiver only supplies the method.
    fn try_fit(self, xs_and_ys: &[(V, V)]) -> (r: Result<Self, InterpolationError<V>>)
        ensures
            match r {
                Ok(f) => fit_error(firsts(xs_and_ys@), Self::min_points()).is_none() && f.fitted_from(
                    xs_and_ys@,
                ),
                Err(e) => fit_error(firsts(xs_and_ys@), Self::min_points()) == Some(e),
            },
    ;

    /// Evaluates the fitted method at `x`.
    fn try_value(&self, x: V) -> (r: Result<V, InterpolationError<V>>)
        ensures
            r == self.value_at(x),
    ;
}

/// Fitting fewer knots than a method needs always fails with
/// `InsufficientPointsError`, carrying the number of knots given.
pub proof fn lemma_too_few_knots<V: Value>(xs: Seq<V>, min: nat)
    requires
        xs.len() < min,
    ensures
        fit_error(xs, min) == Some(InterpolationError::<V>::InsufficientPointsError(xs.len() as usize)),
{
}

/// Fitting enough knots of which one abscissa is below its predecessor always
/// fails with `PointOrderError`: the knots are never reordered.
pub proof fn lemma_decreasing_knots<V: Value>(xs: Seq<V>, min: nat, i: int)
    requires
        xs.len() >= min,
        0 <= i < xs.len() - 1,
        !xs[i].le_spec(xs[i + 1]),
    ensures
        fit_error(xs, min) == Some(InterpolationError::<V>::PointOrderError),
{
}

/// Below the first knot the locator fails with `OutOfLowerBound`; at or
/// beyond the last knot it fails with `OutOfUpperBound`.
pub proof fn lemma_locate_outside<V: Value>(xs: Seq<V>, x: V)
    requires
        is_total_preorder::<V>(),
        ascending(xs),
        xs.len() >= 1,
    ensures
        !xs[0].le_spec(x) ==> locate(xs, x) == Err::<int, InterpolationError<V>>(
            InterpolationError::OutOfLowerBound(x),
        ),
        xs[xs.len() - 1].le_spec(x) ==> xs[0].le_spec(x) && locate(xs, x) == Err::<
            int,
            InterpolationError<V>,
        >(InterpolationError::OutOfUpperBound(x)),
{
    lemma_ascending_le(xs, 0, xs.len() - 1);
    if xs[xs.len() - 1].le_spec(x) {
        lemma_le_transitive(xs[0], xs[xs.len() - 1], x);
    }
}

} // verus!
