use crate::error::InterpolationError;
use crate::field::{
    is_ordered_field, lemma_add_assoc, lemma_add_comm, lemma_add_neg, lemma_add_nonneg,
    lemma_add_zero, lemma_distrib, lemma_div_mul, lemma_div_nonneg, lemma_div_positive,
    lemma_field_preorder, lemma_le_add, lemma_le_antisymmetric, lemma_le_one_of_mul, lemma_le_sub,
    lemma_lit_neg, lemma_lit_nonzero, lemma_lit_positive, lemma_mul_assoc, lemma_mul_cancel,
    lemma_mul_comm, lemma_mul_le, lemma_mul_neg, lemma_mul_one, lemma_mul_zero, lemma_sub_add,
    lemma_zero_div, positive,
};
use crate::interpolation::{
    abscissas, ascending, below_next, find_index_at_left_boundary, firsts,
    lemma_gap_nonzero, lemma_locate_knot, lemma_locate_outside, locate, strictly_ascending, Interpolator,
    Point2DWithSlope,
};
use crate::linear_algebra::tridiagonal_matrix::{
    back_substitution, lemma_solve_round_trip, mat_times, pivot, pivots_nonzero, shape_ok,
    sweep_rhs, sweep_upper, thomas, TridiagonalMatrix,
};
use crate::value::{is_total_preorder, lemma_le_total, lemma_le_transitive, one, zero, Value};
use vstd::prelude::*;

verus! {

/// Natural cubic spline: second derivatives at the knots come from a
/// tridiagonal system whose first and last rows pin them to zero.
pub struct NaturalCubic<V: Value> {
    points: Vec<Point2DWithSlope<V>>,
}

/// The length `x[k + 1] - x[k]` of interval `k`.
pub open spec fn gap<V: Value>(pts: Seq<(V, V)>, k: int) -> V {
    pts[k + 1].0.sub_spec(pts[k].0)
}

/// Sub-diagonal entry `k` (row `k + 1`) of the spline system.
pub open spec fn spline_lower<V: Value>(pts: Seq<(V, V)>, k: int) -> V {
    if k + 2 < pts.len() {
        gap(pts, k).div_spec(V::lit_spec(6))
    } else {
        zero()
    }
}

/// Diagonal entry `i` of the spline system.
pub open spec fn spline_diag<V: Value>(pts: Seq<(V, V)>, i: int) -> V {
    if i == 0 || i == pts.len() - 1 {
        one()
    } else {
        gap(pts, i - 1).add_spec(gap(pts, i)).div_spec(V::lit_spec(3))
    }
}

/// Super-diagonal entry `k` (row `k`) of the spline system.
pub open spec fn spline_upper<V: Value>(pts: Seq<(V, V)>, k: int) -> V {
    if k == 0 {
        zero()
    } else {
        gap(pts, k).div_spec(V::lit_spec(6))
    }
}

/// Right-hand side of row `i`: the second difference of slopes at an interior
/// knot, zero at both ends.
pub open spec fn spline_rhs<V: Value>(pts: Seq<(V, V)>, i: int) -> V {
    if i == 0 || i == pts.len() - 1 {
        zero()
    } else {
        pts[i + 1].1.sub_spec(pts[i].1).div_spec(gap(pts, i)).sub_spec(
            pts[i].1.sub_spec(pts[i - 1].1).div_spec(gap(pts, i - 1)),
        )
    }
}

/// The second derivatives at the knots of the natural cubic spline through
/// `pts`, as the solver computes them.
pub open spec fn spline_moments<V: Value>(pts: Seq<(V, V)>) -> Seq<V> {
    thomas(
        Seq::new((pts.len() - 1) as nat, |k: int| spline_lower(pts, k)),
        Seq::new(pts.len(), |i: int| spline_diag(pts, i)),
        Seq::new((pts.len() - 1) as nat, |k: int| spline_upper(pts, k)),
        Seq::new(pts.len(), |i: int| spline_rhs(pts, i)),
    )
}

/// The spline on the interval from `p` to `q`, at `x`.
pub open spec fn cubic_segment<V: Value>(p: Point2DWithSlope<V>, q: Point2DWithSlope<V>, x: V) -> V {
    let x0 = p.coordinate.x;
    let x1 = q.coordinate.x;
    let h = x1.sub_spec(x0);
    let six = V::lit_spec(6);
    let a = x1.sub_spec(x);
    let b = x.sub_spec(x0);
    a.mul_spec(a).mul_spec(a).div_spec(six).div_spec(h).mul_spec(p.dydx).add_spec(
        b.mul_spec(b).mul_spec(b).div_spec(six).div_spec(h).mul_spec(q.dydx),
    ).add_spec(a.mul_spec(p.coordinate.y.div_spec(h).sub_spec(h.div_spec(six).mul_spec(p.dydx)))).add_spec(
        b.mul_spec(q.coordinate.y.div_spec(h).sub_spec(h.div_spec(six).mul_spec(q.dydx))),
    )
}

/// The natural cubic spline with knots `pts`, at `x`.
pub open spec fn natural_cubic_value<V: Value>(pts: Seq<Point2DWithSlope<V>>, x: V) -> Result<
    V,
    InterpolationError<V>,
> {
    match locate(abscissas(pts), x) {
        Ok(i) => Ok(cubic_segment(pts[i], pts[i + 1], x)),
        Err(e) => Err(e),
    }
}

impl<V: Value> NaturalCubic<V> {
    #[verifier::type_invariant]
    spec fn inv(self) -> bool {
        &&& ascending(abscissas(self.points@))
        &&& (self.points@.len() == 0 || self.points@.len() >= 3)
    }

    /// The stored knots, each with its second derivative.
    pub closed spec fn view(&self) -> Seq<Point2DWithSlope<V>> {
        self.points@
    }

    /// An unfitted instance, with no knots.
    pub fn new() -> (r: Self)
        ensures
            r@.len() == 0,
    {
        NaturalCubic { points: Vec::new() }
    }
}

impl<V: Value> Default for NaturalCubic<V> {
    fn default() -> (r: Self)
        ensures
            r@.len() == 0,
    {
        NaturalCubic::new()
    }
}

/// Builds the diagonals and right-hand side of the spline system for at least
/// three knots.
fn spline_system<V: Value>(raw_points: &[(V, V)]) -> (r: (Vec<V>, Vec<V>, Vec<V>, Vec<V>))
    requires
        raw_points@.len() >= 3,
    ensures
        r.0@ == Seq::new((raw_points@.len() - 1) as nat, |k: int| spline_lower(raw_points@, k)),
        r.1@ == Seq::new(raw_points@.len(), |i: int| spline_diag(raw_points@, i)),
        r.2@ == Seq::new((raw_points@.len() - 1) as nat, |k: int| spline_upper(raw_points@, k)),
        r.3@ == Seq::new(raw_points@.len(), |i: int| spline_rhs(raw_points@, i)),
{
    let ghost pts = raw_points@;
    let n = raw_points.len();
    let zero = V::from_i32(0);
    let one = V::from_i32(1);
    let three = V::from_i32(3);
    let six = V::from_i32(6);
    let mut lower: Vec<V> = Vec::new();
    let mut diag: Vec<V> = Vec::new();
    let mut upper: Vec<V> = Vec::new();
    let mut rhs: Vec<V> = Vec::new();
    let mut i: usize = 0;
    while i < n
        invariant
            pts == raw_points@,
            n == pts.len(),
            n >= 3,
            i <= n,
            lower@ =~= Seq::new((n - 1) as nat, |k: int| spline_lower(pts, k)).take(
                if i < n - 1 { i as int } else { n - 1 },
            ),
            upper@ =~= Seq::new((n - 1) as nat, |k: int| spline_upper(pts, k)).take(
                if i < n - 1 { i as int } else { n - 1 },
            ),
            diag@ =~= Seq::new(n as nat, |k: int| spline_diag(pts, k)).take(i as int),
            rhs@ =~= Seq::new(n as nat, |k: int| spline_rhs(pts, k)).take(i as int),
            zero == V::lit_spec(0),
            one == V::lit_spec(1),
            three == V::lit_spec(3),
            six == V::lit_spec(6),
        decreases n - i,
    {
        if i == 0 || i == n - 1 {
            diag.push(one);
            rhs.push(zero);
        } else {
            let h = raw_points[i].0.minus(raw_points[i - 1].0);
            let h_next = raw_points[i + 1].0.minus(raw_points[i].0);
            diag.push(h.plus(h_next).over(three));
            let slope_next = raw_points[i + 1].1.minus(raw_points[i].1).over(h_next);
            let slope = raw_points[i].1.minus(raw_points[i - 1].1).over(h);
            rhs.push(slope_next.minus(slope));
        }
        if i < n - 1 {
            let h_next = raw_points[i + 1].0.minus(raw_points[i].0);
            if i + 2 < n {
                lower.push(h_next.over(six));
            } else {
                lower.push(zero);
            }
            if i == 0 {
                upper.push(zero);
            } else {
                upper.push(h_next.over(six));
            }
        }
        i += 1;
    }
    (lower, diag, upper, rhs)
}

impl<V: Value> Interpolator<V> for NaturalCubic<V> {
    open spec fn min_points() -> nat {
        3
    }

    open spec fn fitted_from(&self, pts: Seq<(V, V)>) -> bool {
        &&& self@.len() == pts.len()
        &&& forall|i: int|
            0 <= i < pts.len() ==> (#[trigger] self@[i]).coordinate.x == pts[i].0
                && self@[i].coordinate.y == pts[i].1 && self@[i].dydx == spline_moments(pts)[i]
    }

    open spec fn value_at(&self, x: V) -> Result<V, InterpolationError<V>> {
        natural_cubic_value(self@, x)
    }

    fn try_fit(self, xs_and_ys: &[(V, V)]) -> (r: Result<Self, InterpolationError<V>>) {
        let n = xs_and_ys.len();
        if n < 3 {
            return Err(InterpolationError::InsufficientPointsError(n));
        }
        let mut i: usize = 1;
        while i < n
            invariant
                n == xs_and_ys@.len(),
                n >= 3,
                1 <= i,
                forall|k: int|
                    0 <= k < i - 1 && k < n - 1 ==> #[trigger] firsts(xs_and_ys@)[k].le_spec(
                        firsts(xs_and_ys@)[k + 1],
                    ),
            decreases n - i,
        {
            if !xs_and_ys[i - 1].0.at_most(xs_and_ys[i].0) {
                assert(!firsts(xs_and_ys@)[(i - 1) as int].le_spec(firsts(xs_and_ys@)[(i - 1) + 1]));
                return Err(InterpolationError::PointOrderError);
            }
            i += 1;
        }
        let (lower, diag, upper, rhs) = spline_system(xs_and_ys);
        let system = match TridiagonalMatrix::try_new(upper, diag, lower) {
            Ok(m) => m,
            Err(_) => {
                // The diagonals were built with matching lengths.
                assert(false);
                return Err(InterpolationError::InsufficientPointsError(n));
            },
        };
        let moments = system.solve(rhs.as_slice());
        assert(moments@ == spline_moments(xs_and_ys@));
        let mut points: Vec<Point2DWithSlope<V>> = Vec::new();
        let mut j: usize = 0;
        while j < n
            invariant
                n == xs_and_ys@.len(),
                moments@ == spline_moments(xs_and_ys@),
                moments@.len() == n,
                j <= n,
                points@.len() == j,
                forall|k: int|
                    0 <= k < j ==> (#[trigger] points@[k]).coordinate.x == xs_and_ys@[k].0
                        && points@[k].coordinate.y == xs_and_ys@[k].1 && points@[k].dydx
                        == moments@[k],
            decreases n - j,
        {
            let (x, y) = xs_and_ys[j];
            points.push(Point2DWithSlope::new(x, y, moments[j]));
            j += 1;
        }
        assert(abscissas(points@) =~= firsts(xs_and_ys@));
        Ok(NaturalCubic { points })
    }

    fn try_value(&self, x: V) -> (r: Result<V, InterpolationError<V>>) {
        proof {
            use_type_invariant(self);
        }
        let pos = match find_index_at_left_boundary(self.points.as_slice(), x) {
            Ok(pos) => pos,
            Err(e) => return Err(e),
        };
        let n = self.points.len();
        assert(pos + 1 < n);
        let point = self.points[pos];
        let next_point = self.points[pos + 1];
        let x0 = point.coordinate.x;
        let x1 = next_point.coordinate.x;
        let h = x1.minus(x0);
        let six = V::from_i32(6);
        let a = x1.minus(x);
        let b = x.minus(x0);
        Ok(a.times(a).times(a).over(six).over(h).times(point.dydx).plus(
            b.times(b).times(b).over(six).over(h).times(next_point.dydx),
        ).plus(a.times(point.coordinate.y.over(h).minus(h.over(six).times(point.dydx)))).plus(
            b.times(next_point.coordinate.y.over(h).minus(h.over(six).times(next_point.dydx))),
        ))
    }
}

/// At the start of its interval, the cubic segment takes the ordinate of the
/// knot there, whatever the second derivatives are.
pub proof fn lemma_cubic_segment_at_start<V: Value>(p: Point2DWithSlope<V>, q: Point2DWithSlope<V>)
    requires
        is_ordered_field::<V>(),
        q.coordinate.x.sub_spec(p.coordinate.x) != zero::<V>(),
    ensures
        cubic_segment(p, q, p.coordinate.x) == p.coordinate.y,
{
    let x0 = p.coordinate.x;
    let h = q.coordinate.x.sub_spec(x0);
    let six = V::lit_spec(6);
    let z = zero::<V>();
    let y0 = p.coordinate.y;
    let m0 = p.dydx;
    lemma_lit_nonzero::<V>(6);
    // The terms in `x - x0` vanish.
    lemma_add_neg(x0);
    lemma_mul_zero(z);
    lemma_zero_div(six);
    lemma_zero_div(h);
    lemma_mul_zero(q.dydx);
    lemma_mul_zero(q.coordinate.y.div_spec(h).sub_spec(h.div_spec(six).mul_spec(q.dydx)));
    // h^3 / 6 / h == h * (h / 6).
    let u = h.div_spec(six);
    let a = h.mul_spec(h).mul_spec(h).div_spec(six);
    lemma_div_mul(h.mul_spec(h).mul_spec(h), six);
    lemma_div_mul(h, six);
    lemma_mul_assoc(h.mul_spec(h), u, six);
    lemma_mul_cancel(a, h.mul_spec(h).mul_spec(u), six);
    let b = a.div_spec(h);
    lemma_div_mul(a, h);
    lemma_mul_assoc(h, h, u);
    lemma_mul_comm(h, u);
    lemma_mul_assoc(h, u, h);
    lemma_mul_comm(h, h.mul_spec(u));
    lemma_mul_cancel(b, h.mul_spec(u), h);
    let t1 = b.mul_spec(m0);
    lemma_mul_assoc(h, u, m0);
    // h * (y0 / h - u * m0) == y0 - h * (u * m0).
    let w = u.mul_spec(m0);
    lemma_sub_add(y0.div_spec(h), w);
    lemma_distrib(h, y0.div_spec(h), w.neg_spec());
    lemma_mul_comm(h, y0.div_spec(h));
    lemma_div_mul(y0, h);
    lemma_mul_neg(h, w);
    let hw = h.mul_spec(w);
    let t3 = y0.add_spec(hw.neg_spec());
    // Summing up.
    lemma_add_zero(t1);
    lemma_add_zero(t1.add_spec(t3));
    lemma_add_comm(hw, t3);
    lemma_add_assoc(y0, hw.neg_spec(), hw);
    lemma_add_neg(hw);
    lemma_add_comm(hw.neg_spec(), hw);
    lemma_add_zero(y0);
}

/// The natural cubic spline reproduces every knot but the last exactly (at
/// the last one evaluation fails with `OutOfUpperBound`).
pub proof fn lemma_natural_cubic_reproduces_knots<V: Value>(
    f: NaturalCubic<V>,
    pts: Seq<(V, V)>,
    i: int,
)
    requires
        is_ordered_field::<V>(),
        f.fitted_from(pts),
        strictly_ascending(firsts(pts)),
        0 <= i < pts.len() - 1,
    ensures
        f.value_at(pts[i].0) == Ok::<V, InterpolationError<V>>(pts[i].1),
{
    let xs = firsts(pts);
    assert(abscissas(f@) =~= xs);
    lemma_field_preorder::<V>();
    lemma_locate_knot(xs, i);
    assert(below_next(xs, i));
    let p = f@[i];
    let q = f@[i + 1];
    lemma_gap_nonzero(p.coordinate.x, q.coordinate.x);
    lemma_cubic_segment_at_start(p, q);
}

/// Below the first knot evaluation fails with `OutOfLowerBound`; at or beyond
/// the last knot it fails with `OutOfUpperBound`.
pub proof fn lemma_natural_cubic_outside_knots<V: Value>(f: NaturalCubic<V>, pts: Seq<(V, V)>, x: V)
    requires
        is_total_preorder::<V>(),
        f.fitted_from(pts),
        pts.len() >= 1,
        ascending(firsts(pts)),
    ensures
        !pts[0].0.le_spec(x) ==> f.value_at(x) == Err::<V, InterpolationError<V>>(
            InterpolationError::OutOfLowerBound(x),
        ),
        pts[pts.len() - 1].0.le_spec(x) ==> f.value_at(x) == Err::<V, InterpolationError<V>>(
            InterpolationError::OutOfUpperBound(x),
        ),
{
    assert(abscissas(f@) =~= firsts(pts));
    lemma_locate_outside(firsts(pts), x);
}

/// The natural boundary condition: in exact arithmetic the second derivative
/// that the fit stores at the first and at the last knot is zero.
pub proof fn lemma_natural_boundary<V: Value>(pts: Seq<(V, V)>)
    requires
        is_ordered_field::<V>(),
        pts.len() >= 3,
    ensures
        spline_moments(pts)[0] == zero::<V>(),
        spline_moments(pts)[pts.len() - 1] == zero::<V>(),
{
    let n = pts.len();
    let l = Seq::new((n - 1) as nat, |k: int| spline_lower(pts, k));
    let d = Seq::new(n, |i: int| spline_diag(pts, i));
    let u = Seq::new((n - 1) as nat, |k: int| spline_upper(pts, k));
    let b = Seq::new(n, |i: int| spline_rhs(pts, i));
    let z = zero::<V>();
    let o = one::<V>();
    lemma_lit_nonzero::<V>(1);
    lemma_zero_div(o);
    // First row: the identity row with a zero right-hand side.
    assert(sweep_rhs(l, d, u, b, 0) == z);
    assert(sweep_upper(l, d, u, 0) == z);
    let next = back_substitution(l, d, u, b, 1);
    lemma_mul_zero(next);
    lemma_add_neg(z);
    assert(back_substitution(l, d, u, b, 0) == z);
    // Last row: the identity row, with a zero sub-diagonal entry.
    let last = (n - 1) as nat;
    assert(l[n - 2] == z);
    let c = sweep_upper(l, d, u, (last - 1) as nat);
    let r = sweep_rhs(l, d, u, b, (last - 1) as nat);
    lemma_mul_zero(c);
    lemma_mul_zero(r);
    lemma_sub_add(o, z);
    lemma_lit_neg::<V>(0);
    lemma_add_zero(o);
    assert(pivot(l, d, u, last) == o);
    assert(sweep_rhs(l, d, u, b, last) == z);
    assert(back_substitution(l, d, u, b, last) == z);
}

/// The sub-diagonal of the spline system.
pub open spec fn spline_lowers<V: Value>(pts: Seq<(V, V)>) -> Seq<V> {
    Seq::new((pts.len() - 1) as nat, |k: int| spline_lower(pts, k))
}

/// The diagonal of the spline system.
pub open spec fn spline_diags<V: Value>(pts: Seq<(V, V)>) -> Seq<V> {
    Seq::new(pts.len(), |i: int| spline_diag(pts, i))
}

/// The super-diagonal of the spline system.
pub open spec fn spline_uppers<V: Value>(pts: Seq<(V, V)>) -> Seq<V> {
    Seq::new((pts.len() - 1) as nat, |k: int| spline_upper(pts, k))
}

/// The right-hand side of the spline system.
pub open spec fn spline_rhss<V: Value>(pts: Seq<(V, V)>) -> Seq<V> {
    Seq::new(pts.len(), |i: int| spline_rhs(pts, i))
}

/// `(a + b) / c == a / c + b / c` for a nonzero `c`.
proof fn lemma_div_add<V: Value>(a: V, b: V, c: V)
    requires
        is_ordered_field::<V>(),
        c != zero::<V>(),
    ensures
        a.add_spec(b).div_spec(c) == a.div_spec(c).add_spec(b.div_spec(c)),
{
    lemma_distrib(c, a.div_spec(c), b.div_spec(c));
    lemma_div_mul(a, c);
    lemma_div_mul(b, c);
    lemma_div_mul(a.add_spec(b), c);
    lemma_mul_cancel(a.add_spec(b).div_spec(c), a.div_spec(c).add_spec(b.div_spec(c)), c);
}

/// A third is two sixths.
proof fn lemma_third<V: Value>(a: V)
    requires
        is_ordered_field::<V>(),
    ensures
        a.div_spec(V::lit_spec(3)) == a.div_spec(V::lit_spec(6)).add_spec(a.div_spec(V::lit_spec(6))),
{
    let three = V::lit_spec(3);
    let six = V::lit_spec(6);
    let e = a.div_spec(six);
    lemma_lit_nonzero::<V>(3);
    lemma_lit_nonzero::<V>(6);
    reveal(is_ordered_field);
    assert(three.add_spec(three) == six);
    lemma_distrib(three, e, e);
    lemma_mul_comm(three, e.add_spec(e));
    lemma_mul_comm(three, e);
    lemma_distrib(e, three, three);
    lemma_div_mul(a, six);
    lemma_div_mul(a, three);
    lemma_mul_cancel(a.div_spec(three), e.add_spec(e), three);
}

/// The forward sweep over the spline system of strictly ascending knots: each
/// pivot up to the last interior row is positive and each modified
/// super-diagonal coefficient lies in `[0, 1/2]`.
proof fn lemma_spline_sweep<V: Value>(pts: Seq<(V, V)>, i: nat)
    requires
        is_ordered_field::<V>(),
        strictly_ascending(firsts(pts)),
        pts.len() >= 3,
        i <= pts.len() - 2,
    ensures
        positive(pivot(spline_lowers(pts), spline_diags(pts), spline_uppers(pts), i)),
        zero::<V>().le_spec(sweep_upper(spline_lowers(pts), spline_diags(pts), spline_uppers(pts), i)),
        ({
            let c = sweep_upper(spline_lowers(pts), spline_diags(pts), spline_uppers(pts), i);
            c.add_spec(c).le_spec(one())
        }),
    decreases i,
{
    lemma_field_preorder::<V>();
    let l = spline_lowers(pts);
    let d = spline_diags(pts);
    let u = spline_uppers(pts);
    let z = zero::<V>();
    let o = one::<V>();
    lemma_lit_positive::<V>(1);
    lemma_lit_positive::<V>(3);
    lemma_lit_positive::<V>(6);
    if i == 0 {
        lemma_zero_div(o);
        lemma_add_zero(z);
        lemma_le_total(z, z);
    } else {
        lemma_spline_sweep(pts, (i - 1) as nat);
        let xs = firsts(pts);
        let c = sweep_upper(l, d, u, (i - 1) as nat);
        let a = gap(pts, i - 1);
        let b = gap(pts, i as int);
        assert(below_next(xs, i - 1));
        assert(below_next(xs, i as int));
        lemma_le_sub(xs[i - 1], xs[i as int]);
        lemma_le_sub(xs[i as int], xs[i as int + 1]);
        lemma_gap_nonzero(xs[i - 1], xs[i as int]);
        lemma_gap_nonzero(xs[i as int], xs[i as int + 1]);
        let three = V::lit_spec(3);
        let six = V::lit_spec(6);
        let e = a.div_spec(six);
        let f = b.div_spec(six);
        let p = e.add_spec(e);
        let q = f.add_spec(f);
        let r = e.mul_spec(c);
        let m = pivot(l, d, u, i);
        // m == ((e + e) + (f + f)) - e * c.
        lemma_div_add(a, b, three);
        lemma_third(a);
        lemma_third(b);
        assert(m == p.add_spec(q).sub_spec(r));
        // w == (e + e) - e * c is nonnegative.
        lemma_add_nonneg(c, c);
        lemma_le_transitive(c, c.add_spec(c), o);
        lemma_div_nonneg(a, six);
        lemma_div_nonneg(b, six);
        lemma_mul_le(e, c, o);
        lemma_mul_one(e);
        lemma_add_nonneg(e, e);
        lemma_le_transitive(r, e, p);
        lemma_le_sub(r, p);
        let w = p.sub_spec(r);
        // m == w + q, so q <= m.
        lemma_sub_add(p.add_spec(q), r);
        lemma_sub_add(p, r);
        lemma_add_assoc(p, q, r.neg_spec());
        lemma_add_comm(q, r.neg_spec());
        lemma_add_assoc(p, r.neg_spec(), q);
        assert(m == w.add_spec(q));
        lemma_le_add(z, w, q);
        lemma_add_zero(q);
        // q == b / 3 is positive, so m is.
        lemma_div_positive(b, three);
        lemma_le_transitive(z, q, m);
        if m == z {
            lemma_le_antisymmetric(q, z);
        }
        // The new coefficient f / m lies in [0, 1/2].
        let cn = f.div_spec(m);
        assert(sweep_upper(l, d, u, i) == cn);
        lemma_div_nonneg(f, m);
        lemma_distrib(m, cn, cn);
        lemma_mul_comm(m, cn.add_spec(cn));
        lemma_mul_comm(m, cn);
        lemma_div_mul(f, m);
        lemma_le_one_of_mul(cn.add_spec(cn), m);
    }
}

/// No pivot of the spline system of strictly ascending knots is zero (in
/// exact arithmetic): the system is solved without breakdown.
pub proof fn lemma_spline_pivots_nonzero<V: Value>(pts: Seq<(V, V)>)
    requires
        is_ordered_field::<V>(),
        strictly_ascending(firsts(pts)),
        pts.len() >= 3,
    ensures
        pivots_nonzero(spline_lowers(pts), spline_diags(pts), spline_uppers(pts)),
{
    let l = spline_lowers(pts);
    let d = spline_diags(pts);
    let u = spline_uppers(pts);
    let n = pts.len();
    assert forall|i: nat| i < d.len() implies #[trigger] pivot(l, d, u, i) != zero::<V>() by {
        if i <= n - 2 {
            lemma_spline_sweep(pts, i);
        } else {
            let o = one::<V>();
            let z = zero::<V>();
            lemma_mul_zero(sweep_upper(l, d, u, (i - 1) as nat));
            lemma_sub_add(o, z);
            lemma_lit_neg::<V>(0);
            lemma_add_zero(o);
            lemma_lit_nonzero::<V>(1);
        }
    }
}

/// The second derivatives the fit stores solve the spline equations: the
/// system matrix times them gives the right-hand side (in exact arithmetic,
/// for strictly ascending knots).
pub proof fn lemma_spline_equations<V: Value>(pts: Seq<(V, V)>)
    requires
        is_ordered_field::<V>(),
        strictly_ascending(firsts(pts)),
        pts.len() >= 3,
    ensures
        mat_times(spline_lowers(pts), spline_diags(pts), spline_uppers(pts), spline_moments(pts))
            == spline_rhss(pts),
{
    lemma_spline_pivots_nonzero(pts);
    assert(shape_ok(spline_lowers(pts), spline_diags(pts), spline_uppers(pts)));
    lemma_solve_round_trip(spline_lowers(pts), spline_diags(pts), spline_uppers(pts), spline_rhss(pts));
}

} // verus!
