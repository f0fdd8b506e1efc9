use crate::error::InterpolationError;
use crate::field::{
    is_ordered_field, lemma_add_neg, lemma_add_sub_back, lemma_add_zero, lemma_div_mul,
    lemma_div_nonneg, lemma_field_preorder, lemma_le_add, lemma_le_add_left,
    lemma_le_antisymmetric, lemma_le_neg, lemma_le_sub, lemma_lit_neg, lemma_mul_comm, lemma_mul_le,
    lemma_mul_neg, lemma_mul_nonneg, lemma_mul_zero, lemma_neg_neg, lemma_nonneg_factor,
    lemma_sub_add,
};
use crate::interpolation::{
    abscissas, ascending, below_next, brackets, find_index_at_left_boundary, firsts,
    is_ascending, lemma_ascending_le, lemma_bracket_exists, lemma_gap_nonzero,
    lemma_locate_brackets, lemma_locate_knot, lemma_locate_outside,
    locate, points_from_pairs, points_of, strictly_ascending, Interpolator, Point2D,
};
use crate::value::{is_total_preorder, lemma_le_total, lemma_le_transitive, zero, Value};
use vstd::prelude::*;

verus! {

/// Piecewise-linear interpolation; at or beyond the last knot it returns the
/// last ordinate.
pub struct Linear<V: Value> {
    points: Vec<Point2D<V>>,
}

/// The straight line through `p` and `q`, at `x`.
pub open spec fn lerp<V: Value>(p: Point2D<V>, q: Point2D<V>, x: V) -> V {
    p.y.add_spec(q.y.sub_spec(p.y).div_spec(q.x.sub_spec(p.x)).mul_spec(x.sub_spec(p.x)))
}

/// The piecewise-linear interpolant through `pts`, at `x`.
pub open spec fn linear_value<V: Value>(pts: Seq<Point2D<V>>, x: V) -> Result<
    V,
    InterpolationError<V>,
> {
    if pts.len() == 0 {
        Err(InterpolationError::InsufficientPointsError(0))
    } else if pts.last().x.le_spec(x) {
        Ok(pts.last().y)
    } else {
        match locate(abscissas(pts), x) {
            Ok(i) => Ok(lerp(pts[i], pts[i + 1], x)),
            Err(e) => Err(e),
        }
    }
}

impl<V: Value> Linear<V> {
    #[verifier::type_invariant]
    spec fn inv(self) -> bool {
        ascending(abscissas(self.points@))
    }

    /// The stored knots.
    pub closed spec fn view(&self) -> Seq<Point2D<V>> {
        self.points@
    }

    /// An unfitted instance, with no knots.
    pub fn new() -> (r: Self)
        ensures
            r@.len() == 0,
    {
        Linear { points: Vec::new() }
    }
}

impl<V: Value> Default for Linear<V> {
    fn default() -> (r: Self)
        ensures
            r@.len() == 0,
    {
        Linear::new()
    }
}

impl<V: Value> Interpolator<V> for Linear<V> {
    open spec fn min_points() -> nat {
        2
    }

    open spec fn fitted_from(&self, pts: Seq<(V, V)>) -> bool {
        self@ == points_of(pts)
    }

    open spec fn value_at(&self, x: V) -> Result<V, InterpolationError<V>> {
        linear_value(self@, x)
    }

    fn try_fit(self, xs_and_ys: &[(V, V)]) -> (r: Result<Self, InterpolationError<V>>) {
        if xs_and_ys.len() < 2 {
            return Err(InterpolationError::InsufficientPointsError(xs_and_ys.len()));
        }
        let points = points_from_pairs(xs_and_ys);
        if !is_ascending(points.as_slice()) {
            return Err(InterpolationError::PointOrderError);
        }
        Ok(Linear { points })
    }

    fn try_value(&self, x: V) -> (r: Result<V, InterpolationError<V>>) {
        proof {
            use_type_invariant(self);
        }
        let n = self.points.len();
        if n == 0 {
            return Err(InterpolationError::InsufficientPointsError(0));
        }
        if self.points[n - 1].x.at_most(x) {
            return Ok(self.points[n - 1].y);
        }
        let pos = match find_index_at_left_boundary(self.points.as_slice(), x) {
            Ok(pos) => pos,
            Err(e) => return Err(e),
        };
        let p = self.points[pos];
        let q = self.points[pos + 1];
        Ok(p.y.plus(q.y.minus(p.y).over(q.x.minus(p.x)).times(x.minus(p.x))))
    }
}

/// Linear interpolation reproduces every knot exactly: evaluating a fit of
/// strictly ascending knots at a knot's abscissa gives its ordinate (the last
/// one by the clamp).
pub proof fn lemma_linear_reproduces_knots<V: Value>(f: Linear<V>, pts: Seq<(V, V)>, i: int)
    requires
        is_ordered_field::<V>(),
        f.fitted_from(pts),
        strictly_ascending(firsts(pts)),
        0 <= i < pts.len(),
    ensures
        f.value_at(pts[i].0) == Ok::<V, InterpolationError<V>>(pts[i].1),
{
    let xs = firsts(pts);
    let x = pts[i].0;
    assert(abscissas(f@) =~= xs);
    lemma_field_preorder::<V>();
    if i == pts.len() - 1 {
        lemma_le_total(x, x);
    } else {
        lemma_locate_knot(xs, i);
        let p = f@[i];
        let q = f@[i + 1];
        let s = q.y.sub_spec(p.y).div_spec(q.x.sub_spec(p.x));
        lemma_add_neg(x);
        lemma_mul_zero(s);
        lemma_add_zero(p.y);
        assert(lerp(p, q, x) == p.y);
    }
}

/// Below the first knot evaluation fails with `OutOfLowerBound`; at or beyond
/// the last knot it returns the last ordinate.
pub proof fn lemma_linear_outside_knots<V: Value>(f: Linear<V>, pts: Seq<(V, V)>, x: V)
    requires
        is_total_preorder::<V>(),
        f.fitted_from(pts),
        pts.len() >= 2,
        ascending(firsts(pts)),
    ensures
        !pts[0].0.le_spec(x) ==> f.value_at(x) == Err::<V, InterpolationError<V>>(
            InterpolationError::OutOfLowerBound(x),
        ),
        pts[pts.len() - 1].0.le_spec(x) ==> f.value_at(x) == Ok::<V, InterpolationError<V>>(
            pts[pts.len() - 1].1,
        ),
{
    let xs = firsts(pts);
    assert(abscissas(f@) =~= xs);
    lemma_locate_outside(xs, x);
}

/// Linear interpolation is idempotent: re-fitting it to its own values at the
/// knots gives the same interpolant.
pub proof fn lemma_linear_refit<V: Value>(f: Linear<V>, g: Linear<V>, pts: Seq<(V, V)>)
    requires
        is_ordered_field::<V>(),
        f.fitted_from(pts),
        strictly_ascending(firsts(pts)),
        g.fitted_from(Seq::new(pts.len(), |i: int| (pts[i].0, f.value_at(pts[i].0)->Ok_0))),
    ensures
        g@ == f@,
{
    let again = Seq::new(pts.len(), |i: int| (pts[i].0, f.value_at(pts[i].0)->Ok_0));
    assert forall|i: int| 0 <= i < pts.len() implies #[trigger] again[i] == pts[i] by {
        lemma_linear_reproduces_knots(f, pts, i);
    }
    assert(again =~= pts);
}

/// On one interval whose ordinate does not fall, the line lies between the
/// end ordinates and does not decrease.
proof fn lemma_lerp_rising<V: Value>(p: Point2D<V>, q: Point2D<V>, x1: V, x2: V)
    requires
        is_ordered_field::<V>(),
        p.x.le_spec(x1),
        x1.le_spec(x2),
        x2.le_spec(q.x),
        !q.x.le_spec(p.x),
        p.y.le_spec(q.y),
    ensures
        p.y.le_spec(lerp(p, q, x1)),
        lerp(p, q, x1).le_spec(lerp(p, q, x2)),
        lerp(p, q, x2).le_spec(q.y),
{
    lemma_field_preorder::<V>();
    let z = zero::<V>();
    let h = q.x.sub_spec(p.x);
    let d = q.y.sub_spec(p.y);
    let s = d.div_spec(h);
    let u1 = x1.sub_spec(p.x);
    let u2 = x2.sub_spec(p.x);
    lemma_le_transitive(p.x, x1, x2);
    lemma_le_transitive(p.x, x2, q.x);
    lemma_le_sub(p.x, q.x);
    lemma_gap_nonzero(p.x, q.x);
    lemma_le_sub(p.y, q.y);
    lemma_div_nonneg(d, h);
    lemma_le_sub(p.x, x1);
    lemma_sub_add(x1, p.x);
    lemma_sub_add(x2, p.x);
    lemma_sub_add(q.x, p.x);
    lemma_le_add(x1, x2, p.x.neg_spec());
    lemma_le_add(x2, q.x, p.x.neg_spec());
    lemma_mul_nonneg(s, u1);
    lemma_mul_le(s, u1, u2);
    lemma_mul_le(s, u2, h);
    lemma_div_mul(d, h);
    lemma_mul_comm(d.div_spec(h), h);
    lemma_le_add_left(p.y, z, s.mul_spec(u1));
    lemma_add_zero(p.y);
    lemma_le_add_left(p.y, s.mul_spec(u1), s.mul_spec(u2));
    lemma_le_add_left(p.y, s.mul_spec(u2), d);
    lemma_add_sub_back(p.y, q.y);
}

/// On one interval whose ordinate does not rise, the line lies between the
/// end ordinates and does not increase.
proof fn lemma_lerp_falling<V: Value>(p: Point2D<V>, q: Point2D<V>, x1: V, x2: V)
    requires
        is_ordered_field::<V>(),
        p.x.le_spec(x1),
        x1.le_spec(x2),
        x2.le_spec(q.x),
        !q.x.le_spec(p.x),
        q.y.le_spec(p.y),
    ensures
        lerp(p, q, x1).le_spec(p.y),
        lerp(p, q, x2).le_spec(lerp(p, q, x1)),
        q.y.le_spec(lerp(p, q, x2)),
{
    lemma_field_preorder::<V>();
    let z = zero::<V>();
    let h = q.x.sub_spec(p.x);
    let d = q.y.sub_spec(p.y);
    let s = d.div_spec(h);
    let t = s.neg_spec();
    let u1 = x1.sub_spec(p.x);
    let u2 = x2.sub_spec(p.x);
    lemma_le_transitive(p.x, x1, x2);
    lemma_le_transitive(p.x, x2, q.x);
    lemma_le_sub(p.x, q.x);
    lemma_gap_nonzero(p.x, q.x);
    // d <= 0, so 0 <= -d.
    lemma_le_add(q.y, p.y, p.y.neg_spec());
    lemma_add_neg(p.y);
    lemma_sub_add(q.y, p.y);
    lemma_le_neg(d, z);
    lemma_lit_neg::<V>(0);
    // t * h == -d, so 0 <= t.
    lemma_div_mul(d, h);
    lemma_mul_comm(t, h);
    lemma_mul_neg(h, s);
    lemma_mul_comm(h, s);
    lemma_nonneg_factor(t, h);
    // The offsets.
    lemma_le_sub(p.x, x1);
    lemma_sub_add(x1, p.x);
    lemma_sub_add(x2, p.x);
    lemma_sub_add(q.x, p.x);
    lemma_le_add(x1, x2, p.x.neg_spec());
    lemma_le_add(x2, q.x, p.x.neg_spec());
    lemma_mul_nonneg(t, u1);
    lemma_mul_le(t, u1, u2);
    lemma_mul_le(t, u2, h);
    // s * u == -(t * u).
    lemma_neg_neg(s);
    lemma_mul_comm(t, u1);
    lemma_mul_comm(t, u2);
    lemma_mul_comm(s, u1);
    lemma_mul_comm(s, u2);
    lemma_mul_neg(u1, t);
    lemma_mul_neg(u2, t);
    lemma_le_neg(t.mul_spec(u1), t.mul_spec(u2));
    lemma_le_neg(z, t.mul_spec(u1));
    lemma_le_neg(t.mul_spec(u2), d.neg_spec());
    lemma_neg_neg(d);
    lemma_le_add_left(p.y, s.mul_spec(u1), z);
    lemma_add_zero(p.y);
    lemma_le_add_left(p.y, s.mul_spec(u2), s.mul_spec(u1));
    lemma_le_add_left(p.y, d, s.mul_spec(u2));
    lemma_add_sub_back(p.y, q.y);
}

/// `a` comes no later than `b` in the direction given: not above when
/// `rising`, not below otherwise.
pub open spec fn in_order<V: Value>(rising: bool, a: V, b: V) -> bool {
    if rising {
        a.le_spec(b)
    } else {
        b.le_spec(a)
    }
}

/// Where a query between knots `j` and `k` falls, and what linear
/// interpolation gives there when the ordinates from `j` to `k` run in one
/// direction.
proof fn lemma_linear_in_range<V: Value>(
    f: Linear<V>,
    pts: Seq<(V, V)>,
    rising: bool,
    j: int,
    k: int,
    x: V,
) -> (i: int)
    requires
        is_ordered_field::<V>(),
        f.fitted_from(pts),
        strictly_ascending(firsts(pts)),
        0 <= j <= k < pts.len(),
        forall|m: int| j <= m < k ==> #[trigger] in_order(rising, pts[m].1, pts[m + 1].1),
        pts[j].0.le_spec(x),
        x.le_spec(pts[k].0),
    ensures
        j <= i <= k,
        pts[i].0.le_spec(x),
        i == k ==> f.value_at(x) == Ok::<V, InterpolationError<V>>(pts[k].1),
        i < k ==> brackets(firsts(pts), i, x) && f.value_at(x) == Ok::<V, InterpolationError<V>>(
            lerp(f@[i], f@[i + 1], x),
        ) && in_order(rising, pts[i].1, lerp(f@[i], f@[i + 1], x)) && in_order(
            rising,
            lerp(f@[i], f@[i + 1], x),
            pts[i + 1].1,
        ),
{
    lemma_field_preorder::<V>();
    let xs = firsts(pts);
    let n = pts.len();
    assert(abscissas(f@) =~= xs);
    assert(ascending(xs)) by {
        assert forall|m: int| 0 <= m < xs.len() - 1 implies #[trigger] xs[m].le_spec(xs[m + 1]) by {
            assert(below_next(xs, m));
        }
    }
    if xs[n - 1].le_spec(x) {
        if k < n - 1 {
            assert(below_next(xs, k));
            lemma_ascending_le(xs, k + 1, n - 1);
            lemma_le_transitive(xs[k + 1], xs[n - 1], x);
            lemma_le_transitive(xs[k + 1], x, xs[k]);
        }
        k
    } else {
        lemma_ascending_le(xs, 0, j);
        lemma_le_transitive(xs[0], xs[j], x);
        lemma_bracket_exists(xs, 0, x);
        let i = choose|i: int| brackets(xs, i, x);
        lemma_locate_brackets(xs, i, x);
        if i < j {
            lemma_ascending_le(xs, i + 1, j);
            lemma_le_transitive(xs[i + 1], xs[j], x);
        }
        if i > k {
            assert(below_next(xs, k));
            lemma_ascending_le(xs, k + 1, i);
            lemma_le_transitive(xs[k + 1], xs[i], x);
            lemma_le_transitive(xs[k + 1], x, xs[k]);
        }
        if i == k {
            lemma_le_antisymmetric(x, xs[k]);
            lemma_linear_reproduces_knots(f, pts, k);
        } else {
            lemma_le_total(x, xs[i + 1]);
            lemma_le_total(x, x);
            assert(below_next(xs, i));
            assert(in_order(rising, pts[i].1, pts[i + 1].1));
            if rising {
                lemma_lerp_rising(f@[i], f@[i + 1], x, x);
            } else {
                lemma_lerp_falling(f@[i], f@[i + 1], x, x);
            }
        }
        i
    }
}

/// `in_order` chains.
proof fn lemma_in_order_transitive<V: Value>(rising: bool, a: V, b: V, c: V)
    requires
        is_total_preorder::<V>(),
        in_order(rising, a, b),
        in_order(rising, b, c),
    ensures
        in_order(rising, a, c),
{
    if rising {
        lemma_le_transitive(a, b, c);
    } else {
        lemma_le_transitive(c, b, a);
    }
}

/// Linear interpolation is monotonic between two knots over which the
/// ordinates are: for queries `x1 <= x2` from knot `j` to knot `k`, the
/// values do not fall when the ordinates rise (`rising`) and do not rise
/// when they fall.
pub proof fn lemma_linear_monotonic<V: Value>(
    f: Linear<V>,
    pts: Seq<(V, V)>,
    rising: bool,
    j: int,
    k: int,
    x1: V,
    x2: V,
)
    requires
        is_ordered_field::<V>(),
        f.fitted_from(pts),
        strictly_ascending(firsts(pts)),
        0 <= j <= k < pts.len(),
        forall|m: int| j <= m < k ==> #[trigger] in_order(rising, pts[m].1, pts[m + 1].1),
        pts[j].0.le_spec(x1),
        x1.le_spec(x2),
        x2.le_spec(pts[k].0),
    ensures
        f.value_at(x1) is Ok,
        f.value_at(x2) is Ok,
        in_order(rising, f.value_at(x1)->Ok_0, f.value_at(x2)->Ok_0),
{
    lemma_field_preorder::<V>();
    let xs = firsts(pts);
    lemma_le_transitive(pts[j].0, x1, x2);
    lemma_le_transitive(x1, x2, pts[k].0);
    let i1 = lemma_linear_in_range(f, pts, rising, j, k, x1);
    let i2 = lemma_linear_in_range(f, pts, rising, j, k, x2);
    let v1 = f.value_at(x1)->Ok_0;
    let v2 = f.value_at(x2)->Ok_0;
    assert(ascending(xs)) by {
        assert forall|m: int| 0 <= m < xs.len() - 1 implies #[trigger] xs[m].le_spec(xs[m + 1]) by {
            assert(below_next(xs, m));
        }
    }
    if i1 > i2 {
        lemma_ascending_le(xs, i2 + 1, i1);
        lemma_le_transitive(xs[i2 + 1], xs[i1], x1);
        lemma_le_transitive(xs[i2 + 1], x1, x2);
    }
    if i1 == i2 {
        if i1 == k {
            lemma_le_total(v1, v1);
        } else {
            lemma_le_total(x2, xs[i1 + 1]);
            assert(below_next(xs, i1));
            assert(in_order(rising, pts[i1].1, pts[i1 + 1].1));
            if rising {
                lemma_lerp_rising(f@[i1], f@[i1 + 1], x1, x2);
            } else {
                lemma_lerp_falling(f@[i1], f@[i1 + 1], x1, x2);
            }
        }
    } else {
        lemma_in_order_chain(pts, rising, j, k, i1 + 1, i2);
        lemma_in_order_transitive(rising, v1, pts[i1 + 1].1, pts[i2].1);
        if i2 == k {
            lemma_le_total(v2, v2);
        }
        lemma_in_order_transitive(rising, v1, pts[i2].1, v2);
    }
}

/// Ordinates that run in one direction from knot to knot do so between any
/// two knots.
proof fn lemma_in_order_chain<V: Value>(pts: Seq<(V, V)>, rising: bool, j: int, k: int, a: int, b: int)
    requires
        is_total_preorder::<V>(),
        0 <= j <= a <= b <= k < pts.len(),
        forall|m: int| j <= m < k ==> #[trigger] in_order(rising, pts[m].1, pts[m + 1].1),
    ensures
        in_order(rising, pts[a].1, pts[b].1),
    decreases b - a,
{
    if a == b {
        lemma_le_total(pts[a].1, pts[a].1);
    } else {
        lemma_in_order_chain(pts, rising, j, k, a, b - 1);
        assert(in_order(rising, pts[b - 1].1, pts[b - 1 + 1].1));
        lemma_in_order_transitive(rising, pts[a].1, pts[b - 1].1, pts[b].1);
    }
}

} // verus!
