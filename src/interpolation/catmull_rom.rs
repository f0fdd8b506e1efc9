use crate::error::InterpolationError;
use crate::field::{is_ordered_field, lemma_field_preorder};
use crate::interpolation::{
    abscissas, ascending, below_next, find_index_at_left_boundary, firsts, is_ascending,
    lemma_gap_nonzero, lemma_locate_knot, lemma_locate_outside, lemma_monomials_at_start, locate, monomial_basis,
    monomials, points_from_pairs, points_of, strictly_ascending, Interpolator, Point2D,
};
use crate::linear_algebra::matrix4::{
    dot_spec, lemma_dot_unit_w, lemma_dot_unit_y, mul_vec_spec, Matrix4, Vector4,
};
use crate::value::{is_total_preorder, one, zero, Value};
use vstd::prelude::*;

verus! {

/// Catmull-Rom spline: tangents come from the neighbouring knots at
/// evaluation time.
pub struct CatmullRom<V: Value> {
    points: Vec<Point2D<V>>,
}

/// The coefficients on the first interval, which has no left neighbour.
pub open spec fn first_interval_matrix<V: Value>(beta: V) -> Matrix4<V> {
    Matrix4 {
        r0: Vector4 { x: zero(), y: one::<V>().sub_spec(beta), z: one::<V>().neg_spec(), w: beta },
        r1: Vector4 { x: zero(), y: one::<V>().neg_spec().add_spec(beta), z: one(), w: beta.neg_spec() },
        r2: Vector4 { x: zero(), y: one::<V>().neg_spec(), z: one(), w: zero() },
        r3: Vector4 { x: zero(), y: one(), z: zero(), w: zero() },
    }
}

/// The coefficients on the last interval, which has no right neighbour.
pub open spec fn last_interval_matrix<V: Value>(alpha: V) -> Matrix4<V> {
    Matrix4 {
        r0: Vector4 {
            x: alpha.neg_spec(),
            y: one(),
            z: one::<V>().neg_spec().mul_spec(alpha),
            w: zero(),
        },
        r1: Vector4 {
            x: V::lit_spec(2).mul_spec(alpha),
            y: V::lit_spec(-2),
            z: V::lit_spec(2).sub_spec(V::lit_spec(2).mul_spec(alpha)),
            w: zero(),
        },
        r2: Vector4 { x: alpha.neg_spec(), y: zero(), z: alpha, w: zero() },
        r3: Vector4 { x: zero(), y: one(), z: zero(), w: zero() },
    }
}

/// The coefficients on an interval with neighbours on both sides.
pub open spec fn interior_matrix<V: Value>(alpha: V, beta: V) -> Matrix4<V> {
    Matrix4 {
        r0: Vector4 {
            x: alpha.neg_spec(),
            y: V::lit_spec(2).sub_spec(beta),
            z: V::lit_spec(-2).add_spec(alpha),
            w: beta,
        },
        r1: Vector4 {
            x: V::lit_spec(2).mul_spec(alpha),
            y: beta.sub_spec(V::lit_spec(3)),
            z: V::lit_spec(3).sub_spec(V::lit_spec(2).mul_spec(alpha)),
            w: beta.neg_spec(),
        },
        r2: Vector4 { x: alpha.neg_spec(), y: zero(), z: alpha, w: zero() },
        r3: Vector4 { x: zero(), y: one(), z: zero(), w: zero() },
    }
}

/// The spline on the interval that starts at knot `i`, at `x`. The weights are
/// `alpha = h / (h + (x[i] - x[i-1]))` and `beta = h / (h + (x[i+2] - x[i+1]))`
/// with `h = x[i+1] - x[i]`.
pub open spec fn catmull_rom_segment<V: Value>(pts: Seq<Point2D<V>>, i: int, x: V) -> V {
    let p = pts[i];
    let q = pts[i + 1];
    let h = q.x.sub_spec(p.x);
    let d = monomials(x, p.x, h);
    if i == 0 {
        let r = pts[i + 2];
        let beta = h.div_spec(h.add_spec(r.x.sub_spec(q.x)));
        dot_spec(
            d,
            mul_vec_spec(first_interval_matrix(beta), Vector4 { x: zero(), y: p.y, z: q.y, w: r.y }),
        )
    } else if i + 2 == pts.len() {
        let o = pts[i - 1];
        let alpha = h.div_spec(h.add_spec(p.x.sub_spec(o.x)));
        dot_spec(
            d,
            mul_vec_spec(last_interval_matrix(alpha), Vector4 { x: o.y, y: p.y, z: q.y, w: zero() }),
        )
    } else {
        let o = pts[i - 1];
        let r = pts[i + 2];
        let alpha = h.div_spec(h.add_spec(p.x.sub_spec(o.x)));
        let beta = h.div_spec(h.add_spec(r.x.sub_spec(q.x)));
        dot_spec(
            d,
            mul_vec_spec(interior_matrix(alpha, beta), Vector4 { x: o.y, y: p.y, z: q.y, w: r.y }),
        )
    }
}

/// The Catmull-Rom spline through `pts`, at `x`.
pub open spec fn catmull_rom_value<V: Value>(pts: Seq<Point2D<V>>, x: V) -> Result<
    V,
    InterpolationError<V>,
> {
    match locate(abscissas(pts), x) {
        Ok(i) => Ok(catmull_rom_segment(pts, i, x)),
        Err(e) => Err(e),
    }
}

fn first_interval_coefficients<V: Value>(beta: V) -> (r: Matrix4<V>)
    ensures
        r == first_interval_matrix(beta),
{
    let zero = V::from_i32(0);
    let one = V::from_i32(1);
    Matrix4::from_rows(
        Vector4::new(zero, one.minus(beta), one.negated(), beta),
        Vector4::new(zero, one.negated().plus(beta), one, beta.negated()),
        Vector4::new(zero, one.negated(), one, zero),
        Vector4::new(zero, one, zero, zero),
    )
}

fn last_interval_coefficients<V: Value>(alpha: V) -> (r: Matrix4<V>)
    ensures
        r == last_interval_matrix(alpha),
{
    let zero = V::from_i32(0);
    let one = V::from_i32(1);
    let two = V::from_i32(2);
    Matrix4::from_rows(
        Vector4::new(alpha.negated(), one, one.negated().times(alpha), zero),
        Vector4::new(two.times(alpha), V::from_i32(-2), two.minus(two.times(alpha)), zero),
        Vector4::new(alpha.negated(), zero, alpha, zero),
        Vector4::new(zero, one, zero, zero),
    )
}

fn interior_coefficients<V: Value>(alpha: V, beta: V) -> (r: Matrix4<V>)
    ensures
        r == interior_matrix(alpha, beta),
{
    let zero = V::from_i32(0);
    let one = V::from_i32(1);
    let two = V::from_i32(2);
    let three = V::from_i32(3);
    Matrix4::from_rows(
        Vector4::new(alpha.negated(), two.minus(beta), V::from_i32(-2).plus(alpha), beta),
        Vector4::new(two.times(alpha), beta.minus(three), three.minus(two.times(alpha)), beta.negated()),
        Vector4::new(alpha.negated(), zero, alpha, zero),
        Vector4::new(zero, one, zero, zero),
    )
}

impl<V: Value> CatmullRom<V> {
    #[verifier::type_invariant]
    spec fn inv(self) -> bool {
        &&& ascending(abscissas(self.points@))
        &&& (self.points@.len() == 0 || self.points@.len() >= 3)
    }

    /// The stored knots.
    pub closed spec fn view(&self) -> Seq<Point2D<V>> {
        self.points@
    }

    /// An unfitted instance, with no knots.
    pub fn new() -> (r: Self)
        ensures
            r@.len() == 0,
    {
        CatmullRom { points: Vec::new() }
    }
}

impl<V: Value> Default for CatmullRom<V> {
    fn default() -> (r: Self)
        ensures
            r@.len() == 0,
    {
        CatmullRom::new()
    }
}

impl<V: Value> Interpolator<V> for CatmullRom<V> {
    open spec fn min_points() -> nat {
        3
    }

    open spec fn fitted_from(&self, pts: Seq<(V, V)>) -> bool {
        self@ == points_of(pts)
    }

    open spec fn value_at(&self, x: V) -> Result<V, InterpolationError<V>> {
        catmull_rom_value(self@, x)
    }

    fn try_fit(self, xs_and_ys: &[(V, V)]) -> (r: Result<Self, InterpolationError<V>>) {
        if xs_and_ys.len() < 3 {
            return Err(InterpolationError::InsufficientPointsError(xs_and_ys.len()));
        }
        let points = points_from_pairs(xs_and_ys);
        if !is_ascending(points.as_slice()) {
            return Err(InterpolationError::PointOrderError);
        }
        Ok(CatmullRom { points })
    }

    fn try_value(&self, x: V) -> (r: Result<V, InterpolationError<V>>) {
        proof {
            use_type_invariant(self);
        }
        let pos = match find_index_at_left_boundary(self.points.as_slice(), x) {
            Ok(pos) => pos,
            Err(e) => return Err(e),
        };
        let n = self.points.len();
        let point = self.points[pos];
        let next_point = self.points[pos + 1];
        let h = next_point.x.minus(point.x);
        let d = monomial_basis(x, point.x, h);
        let w = if pos == 0 {
            let next_next_point = self.points[pos + 2];
            let next_h = next_next_point.x.minus(next_point.x);
            let beta = h.over(h.plus(next_h));
            first_interval_coefficients(beta).mul_vec(
                Vector4::new(V::from_i32(0), point.y, next_point.y, next_next_point.y),
            )
        } else if pos + 2 == n {
            let prev_point = self.points[pos - 1];
            let prev_h = point.x.minus(prev_point.x);
            let alpha = h.over(h.plus(prev_h));
            last_interval_coefficients(alpha).mul_vec(
                Vector4::new(prev_point.y, point.y, next_point.y, V::from_i32(0)),
            )
        } else {
            let prev_point = self.points[pos - 1];
            let prev_h = point.x.minus(prev_point.x);
            let alpha = h.over(h.plus(prev_h));
            let next_next_point = self.points[pos + 2];
            let next_h = next_next_point.x.minus(next_point.x);
            let beta = h.over(h.plus(next_h));
            interior_coefficients(alpha, beta).mul_vec(
                Vector4::new(prev_point.y, point.y, next_point.y, next_next_point.y),
            )
        };
        Ok(d.dot(w))
    }
}

/// The Catmull-Rom spline reproduces every knot but the last exactly (at the
/// last one evaluation fails with `OutOfUpperBound`).
pub proof fn lemma_catmull_rom_reproduces_knots<V: Value>(
    f: CatmullRom<V>,
    pts: Seq<(V, V)>,
    i: int,
)
    requires
        is_ordered_field::<V>(),
        f.fitted_from(pts),
        strictly_ascending(firsts(pts)),
        0 <= i < pts.len() - 1,
    ensures
        f.value_at(pts[i].0) == Ok::<V, InterpolationError<V>>(pts[i].1),
{
    let xs = firsts(pts);
    assert(abscissas(f@) =~= xs);
    lemma_field_preorder::<V>();
    lemma_locate_knot(xs, i);
    assert(below_next(xs, i));
    let pts2 = f@;
    let p = pts2[i];
    let q = pts2[i + 1];
    let h = q.x.sub_spec(p.x);
    lemma_gap_nonzero(p.x, q.x);
    lemma_monomials_at_start(p.x, h);
    if i == 0 {
        let r = pts2[i + 2];
        let beta = h.div_spec(h.add_spec(r.x.sub_spec(q.x)));
        let v = Vector4 { x: zero::<V>(), y: p.y, z: q.y, w: r.y };
        lemma_dot_unit_w(mul_vec_spec(first_interval_matrix(beta), v));
        lemma_dot_unit_y(v);
    } else if i + 2 == pts2.len() {
        let o = pts2[i - 1];
        let alpha = h.div_spec(h.add_spec(p.x.sub_spec(o.x)));
        let v = Vector4 { x: o.y, y: p.y, z: q.y, w: zero::<V>() };
        lemma_dot_unit_w(mul_vec_spec(last_interval_matrix(alpha), v));
        lemma_dot_unit_y(v);
    } else {
        let o = pts2[i - 1];
        let r = pts2[i + 2];
        let alpha = h.div_spec(h.add_spec(p.x.sub_spec(o.x)));
        let beta = h.div_spec(h.add_spec(r.x.sub_spec(q.x)));
        let v = Vector4 { x: o.y, y: p.y, z: q.y, w: r.y };
        lemma_dot_unit_w(mul_vec_spec(interior_matrix(alpha, beta), v));
        lemma_dot_unit_y(v);
    }
}

/// Below the first knot evaluation fails with `OutOfLowerBound`; at or beyond
/// the last knot it fails with `OutOfUpperBound`.
pub proof fn lemma_catmull_rom_outside_knots<V: Value>(f: CatmullRom<V>, pts: Seq<(V, V)>, x: V)
    requires
        is_total_preorder::<V>(),
        f.fitted_from(pts),
        pts.len() >= 1,
        ascending(firsts(pts)),
    ensures
        !pts[0].0.le_spec(x) ==> f.value_at(x) == Err::<V, InterpolationError<V>>(
            InterpolationError::OutOfLowerBound(x),
        ),
        pts[pts.len() - 1].0.le_spec(x) ==> f.value_at(x) == Err::<V, InterpolationError<V>>(
            InterpolationError::OutOfUpperBound(x),
        ),
{
    assert(abscissas(f@) =~= firsts(pts));
    lemma_locate_outside(firsts(pts), x);
}

} // verus!
