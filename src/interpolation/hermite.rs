use crate::error::InterpolationError;
use crate::field::{is_ordered_field, lemma_field_preorder};
use crate::interpolation::{
    abscissas, ascending, below_next, find_index_at_left_boundary, fit_error, is_ascending,
    lemma_gap_nonzero, lemma_locate_knot, lemma_locate_outside, lemma_monomials_at_start, locate, monomial_basis,
    monomials, strictly_ascending, Point2DWithSlope,
};
use crate::linear_algebra::matrix4::{
    dot_spec, lemma_dot_unit_x, lemma_unit_w_times, vec_mul_spec, Matrix4, Vector4,
};
use crate::value::{is_total_preorder, one, zero, Value};
use vstd::prelude::*;

verus! {

/// Cubic Hermite spline through knots with given slopes.
pub struct Hermite<V: Value> {
    points: Vec<Point2DWithSlope<V>>,
    m: Matrix4<V>,
}

/// The cubic Hermite basis: it turns the monomials `[d^3, d^2, d, 1]` into the
/// weights of `[y0, y1, h * dydx0, h * dydx1]`.
pub open spec fn hermite_basis<V: Value>() -> Matrix4<V> {
    Matrix4 {
        r0: Vector4 { x: V::lit_spec(2), y: V::lit_spec(-2), z: one(), w: one() },
        r1: Vector4 { x: V::lit_spec(-3), y: V::lit_spec(3), z: V::lit_spec(-2), w: one::<V>().neg_spec() },
        r2: Vector4 { x: zero(), y: zero(), z: one(), w: zero() },
        r3: Vector4 { x: one(), y: zero(), z: zero(), w: zero() },
    }
}

/// The abscissas of `(x, y, dydx)` triples.
pub open spec fn triple_abscissas<V>(pts: Seq<(V, V, V)>) -> Seq<V> {
    Seq::new(pts.len(), |i: int| pts[i].0)
}

/// The knots given by `(x, y, dydx)` triples.
pub open spec fn knots_of<V>(pts: Seq<(V, V, V)>) -> Seq<Point2DWithSlope<V>> {
    Seq::new(
        pts.len(),
        |i: int| Point2DWithSlope { coordinate: crate::interpolation::Point2D { x: pts[i].0, y: pts[i].1 }, dydx: pts[i].2 },
    )
}

/// The spline on the interval from `p` to `q`, at `x`.
pub open spec fn hermite_segment<V: Value>(p: Point2DWithSlope<V>, q: Point2DWithSlope<V>, x: V) -> V {
    let h = q.coordinate.x.sub_spec(p.coordinate.x);
    let d = monomials(x, p.coordinate.x, h);
    let f = Vector4 {
        x: p.coordinate.y,
        y: q.coordinate.y,
        z: p.dydx.mul_spec(h),
        w: q.dydx.mul_spec(h),
    };
    dot_spec(vec_mul_spec(d, hermite_basis()), f)
}

/// The Hermite spline with knots `pts`, at `x`.
pub open spec fn hermite_value<V: Value>(pts: Seq<Point2DWithSlope<V>>, x: V) -> Result<
    V,
    InterpolationError<V>,
> {
    match locate(abscissas(pts), x) {
        Ok(i) => Ok(hermite_segment(pts[i], pts[i + 1], x)),
        Err(e) => Err(e),
    }
}

fn hermite_coefficients<V: Value>() -> (r: Matrix4<V>)
    ensures
        r == hermite_basis::<V>(),
{
    let zero = V::from_i32(0);
    let one = V::from_i32(1);
    Matrix4::from_rows(
        Vector4::new(V::from_i32(2), V::from_i32(-2), one, one),
        Vector4::new(V::from_i32(-3), V::from_i32(3), V::from_i32(-2), one.negated()),
        Vector4::new(zero, zero, one, zero),
        Vector4::new(one, zero, zero, zero),
    )
}

impl<V: Value> Hermite<V> {
    #[verifier::type_invariant]
    spec fn inv(self) -> bool {
        &&& ascending(abscissas(self.points@))
        &&& self.points@.len() >= 3
        &&& self.m == hermite_basis::<V>()
    }

    /// The stored knots.
    pub closed spec fn view(&self) -> Seq<Point2DWithSlope<V>> {
        self.points@
    }

    /// Fits the spline to `(x, y, dydx)` triples; needs at least three, with
    /// abscissas that never decrease.
    pub fn try_new(raw_points: &[(V, V, V)]) -> (r: Result<Self, InterpolationError<V>>)
        ensures
            match r {
                Ok(s) => fit_error(triple_abscissas(raw_points@), 3).is_none() && s@ == knots_of(
                    raw_points@,
                ),
                Err(e) => fit_error(triple_abscissas(raw_points@), 3) == Some(e),
            },
    {
        if raw_points.len() < 3 {
            return Err(InterpolationError::InsufficientPointsError(raw_points.len()));
        }
        let mut points: Vec<Point2DWithSlope<V>> = Vec::new();
        let mut i: usize = 0;
        while i < raw_points.len()
            invariant
                i <= raw_points.len(),
                points@ == knots_of(raw_points@).take(i as int),
            decreases raw_points.len() - i,
        {
            let (x, y, dydx) = raw_points[i];
            points.push(Point2DWithSlope::new(x, y, dydx));
            i += 1;
        }
        assert(points@ =~= knots_of(raw_points@));
        assert(abscissas(points@) =~= triple_abscissas(raw_points@));
        if !is_ascending(points.as_slice()) {
            return Err(InterpolationError::PointOrderError);
        }
        Ok(Hermite { points, m: hermite_coefficients() })
    }

    /// Evaluates the spline at `x`.
    pub fn try_value(&self, x: V) -> (r: Result<V, InterpolationError<V>>)
        ensures
            r == hermite_value(self@, x),
    {
        proof {
            use_type_invariant(self);
        }
        let pos = match find_index_at_left_boundary(self.points.as_slice(), x) {
            Ok(pos) => pos,
            Err(e) => return Err(e),
        };
        let n = self.points.len();
        assert(pos + 1 < n);
        let point = self.points[pos];
        let next_point = self.points[pos + 1];
        let h = next_point.coordinate.x.minus(point.coordinate.x);
        let d = monomial_basis(x, point.coordinate.x, h);
        let f = Vector4::new(
            point.coordinate.y,
            next_point.coordinate.y,
            point.dydx.times(h),
            next_point.dydx.times(h),
        );
        Ok(d.mul_matrix(&self.m).dot(f))
    }
}

/// The Hermite spline reproduces every knot but the last exactly (at the
/// last one evaluation fails with `OutOfUpperBound`).
pub proof fn lemma_hermite_reproduces_knots<V: Value>(s: Hermite<V>, pts: Seq<(V, V, V)>, i: int)
    requires
        is_ordered_field::<V>(),
        s@ == knots_of(pts),
        strictly_ascending(triple_abscissas(pts)),
        0 <= i < pts.len() - 1,
    ensures
        hermite_value(s@, pts[i].0) == Ok::<V, InterpolationError<V>>(pts[i].1),
{
    let xs = triple_abscissas(pts);
    assert(abscissas(s@) =~= xs);
    lemma_field_preorder::<V>();
    lemma_locate_knot(xs, i);
    assert(below_next(xs, i));
    let p = s@[i];
    let q = s@[i + 1];
    let h = q.coordinate.x.sub_spec(p.coordinate.x);
    lemma_gap_nonzero(p.coordinate.x, q.coordinate.x);
    lemma_monomials_at_start(p.coordinate.x, h);
    lemma_unit_w_times(hermite_basis::<V>());
    let f = Vector4 {
        x: p.coordinate.y,
        y: q.coordinate.y,
        z: p.dydx.mul_spec(h),
        w: q.dydx.mul_spec(h),
    };
    lemma_dot_unit_x(f);
}

/// Below the first knot evaluation fails with `OutOfLowerBound`; at or beyond
/// the last knot it fails with `OutOfUpperBound`.
pub proof fn lemma_hermite_outside_knots<V: Value>(f: Hermite<V>, pts: Seq<(V, V, V)>, x: V)
    requires
        is_total_preorder::<V>(),
        f@ == knots_of(pts),
        pts.len() >= 1,
        ascending(triple_abscissas(pts)),
    ensures
        !pts[0].0.le_spec(x) ==> hermite_value(f@, x) == Err::<V, InterpolationError<V>>(
            InterpolationError::OutOfLowerBound(x),
        ),
        pts[pts.len() - 1].0.le_spec(x) ==> hermite_value(f@, x) == Err::<V, InterpolationError<V>>(
            InterpolationError::OutOfUpperBound(x),
        ),
{
    assert(abscissas(f@) =~= triple_abscissas(pts));
    lemma_locate_outside(triple_abscissas(pts), x);
}

} // verus!
