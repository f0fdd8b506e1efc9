use crate::field::{
    is_ordered_field, lemma_add_comm, lemma_cancel_pair, lemma_cancel_pair_around,
    lemma_distrib, lemma_div_mul, lemma_mul_assoc, lemma_mul_comm, lemma_mul_sub,
    lemma_sub_add_cancel,
};
use crate::value::{zero, Value};
use vstd::prelude::*;

verus! {

/// Why a tridiagonal matrix could not be built.
#[derive(Debug, Clone, Copy, PartialEq, Eq)]
pub enum MatrixValidationError {
    /// The sub- and super-diagonals are not both one shorter than the diagonal.
    MatrixShapeError,
}

/// A square tridiagonal matrix, given by its three diagonals.
pub struct TridiagonalMatrix<V: Value> {
    upper_diagonal: Vec<V>,
    diagonal: Vec<V>,
    lower_diagonal: Vec<V>,
    size: usize,
}

/// The diagonals of a matrix of size `n` have lengths `n - 1`, `n` and `n - 1`,
/// with `n >= 1`.
pub open spec fn shape_ok<V>(lower: Seq<V>, diag: Seq<V>, upper: Seq<V>) -> bool {
    &&& diag.len() >= 1
    &&& lower.len() + 1 == diag.len()
    &&& upper.len() + 1 == diag.len()
}

/// The pivot of row `i` in the forward sweep of the Thomas algorithm.
pub open spec fn pivot<V: Value>(lower: Seq<V>, diag: Seq<V>, upper: Seq<V>, i: nat) -> V
    decreases i, 1nat,
{
    if i == 0 {
        diag[0]
    } else {
        diag[i as int].sub_spec(lower[i - 1].mul_spec(sweep_upper(lower, diag, upper, (i - 1) as nat)))
    }
}

/// The modified super-diagonal coefficient of row `i`.
pub open spec fn sweep_upper<V: Value>(lower: Seq<V>, diag: Seq<V>, upper: Seq<V>, i: nat) -> V
    decreases i, 2nat,
{
    upper[i as int].div_spec(pivot(lower, diag, upper, i))
}

/// The modified right-hand side of row `i`.
pub open spec fn sweep_rhs<V: Value>(
    lower: Seq<V>,
    diag: Seq<V>,
    upper: Seq<V>,
    b: Seq<V>,
    i: nat,
) -> V
    decreases i,
{
    if i == 0 {
        b[0].div_spec(diag[0])
    } else {
        b[i as int].sub_spec(lower[i - 1].mul_spec(sweep_rhs(lower, diag, upper, b, (i - 1) as nat))).div_spec(
            pivot(lower, diag, upper, i),
        )
    }
}

/// Component `i` of the solution, by back substitution from the last row.
pub open spec fn back_substitution<V: Value>(
    lower: Seq<V>,
    diag: Seq<V>,
    upper: Seq<V>,
    b: Seq<V>,
    i: nat,
) -> V
    decreases diag.len() - i,
{
    if i + 1 >= diag.len() {
        sweep_rhs(lower, diag, upper, b, i)
    } else {
        sweep_rhs(lower, diag, upper, b, i).sub_spec(
            sweep_upper(lower, diag, upper, i).mul_spec(
                back_substitution(lower, diag, upper, b, i + 1),
            ),
        )
    }
}

/// What the Thomas algorithm gives for the system with these diagonals and
/// right-hand side `b`.
pub open spec fn thomas<V: Value>(lower: Seq<V>, diag: Seq<V>, upper: Seq<V>, b: Seq<V>) -> Seq<V> {
    Seq::new(diag.len(), |i: int| back_substitution(lower, diag, upper, b, i as nat))
}

/// Row `i` of the matrix times `x`: the diagonal term, then the
/// super-diagonal term, then the sub-diagonal term.
pub open spec fn row_times<V: Value>(
    lower: Seq<V>,
    diag: Seq<V>,
    upper: Seq<V>,
    x: Seq<V>,
    i: int,
) -> V {
    let t0 = diag[i].mul_spec(x[i]);
    let t1 = if i + 1 < diag.len() {
        t0.add_spec(upper[i].mul_spec(x[i + 1int]))
    } else {
        t0
    };
    if i > 0 {
        t1.add_spec(lower[i - 1].mul_spec(x[i - 1]))
    } else {
        t1
    }
}

/// The matrix times `x`.
pub open spec fn mat_times<V: Value>(lower: Seq<V>, diag: Seq<V>, upper: Seq<V>, x: Seq<V>) -> Seq<
    V,
> {
    Seq::new(diag.len(), |i: int| row_times(lower, diag, upper, x, i))
}

impl<V: Value> TridiagonalMatrix<V> {
    #[verifier::type_invariant]
    spec fn inv(self) -> bool {
        &&& shape_ok(self.lower_diagonal@, self.diagonal@, self.upper_diagonal@)
        &&& self.size == self.diagonal@.len()
    }

    pub closed spec fn upper(&self) -> Seq<V> {
        self.upper_diagonal@
    }

    pub closed spec fn diag(&self) -> Seq<V> {
        self.diagonal@
    }

    pub closed spec fn lower(&self) -> Seq<V> {
        self.lower_diagonal@
    }

    /// Builds the matrix; fails unless both off-diagonals are exactly one
    /// shorter than the diagonal.
    pub fn try_new(upper_diagonal: Vec<V>, diagonal: Vec<V>, lower_diagonal: Vec<V>) -> (r: Result<
        Self,
        MatrixValidationError,
    >)
        ensures
            match r {
                Ok(m) => shape_ok(lower_diagonal@, diagonal@, upper_diagonal@) && m.upper()
                    == upper_diagonal@ && m.diag() == diagonal@ && m.lower() == lower_diagonal@,
                Err(e) => !shape_ok(lower_diagonal@, diagonal@, upper_diagonal@) && e
                    == MatrixValidationError::MatrixShapeError,
            },
    {
        if !(upper_diagonal.len() == lower_diagonal.len() && diagonal.len() > 0
            && upper_diagonal.len() == diagonal.len() - 1) {
            return Err(MatrixValidationError::MatrixShapeError);
        }
        Ok(TridiagonalMatrix { size: diagonal.len(), upper_diagonal, diagonal, lower_diagonal })
    }

    /// Solves `A x = b` by the Thomas algorithm, without pivoting; a zero
    /// pivot is not trapped.
    pub fn solve(self, b: &[V]) -> (r: Vec<V>)
        requires
            b@.len() == self.diag().len(),
        ensures
            r@ == thomas(self.lower(), self.diag(), self.upper(), b@),
    {
        proof {
            use_type_invariant(&self);
        }
        if self.size == 1 {
            let mut x: Vec<V> = Vec::new();
            x.push(b[0].over(self.diagonal[0]));
            proof {
                assert(x@ =~= thomas(self.lower(), self.diag(), self.upper(), b@));
            }
            return x;
        }
        solve_with_thomas_algorithm_unchecked(
            self.size,
            self.lower_diagonal.as_slice(),
            self.diagonal.as_slice(),
            self.upper_diagonal.as_slice(),
            b,
        )
    }

    /// The product `A x`; `None` when `x` is not as long as the matrix is wide.
    pub fn mul(self, rhs: Vec<V>) -> (r: Option<Vec<V>>)
        ensures
            match r {
                Some(y) => rhs@.len() == self.diag().len() && y@ == mat_times(
                    self.lower(),
                    self.diag(),
                    self.upper(),
                    rhs@,
                ),
                None => rhs@.len() != self.diag().len(),
            },
    {
        proof {
            use_type_invariant(&self);
        }
        if rhs.len() != self.size {
            return None;
        }
        let ghost lower = self.lower();
        let ghost diag = self.diag();
        let ghost upper = self.upper();
        let mut ret: Vec<V> = Vec::new();
        let mut i: usize = 0;
        while i < self.size
            invariant
                lower == self.lower(),
                diag == self.diag(),
                upper == self.upper(),
                shape_ok(lower, diag, upper),
                self.size == diag.len(),
                rhs@.len() == diag.len(),
                i <= self.size,
                ret@ =~= mat_times(lower, diag, upper, rhs@).take(i as int),
            decreases self.size - i,
        {
            let mut temp = self.diagonal[i].times(rhs[i]);
            if i + 1 < self.size {
                temp = temp.plus(self.upper_diagonal[i].times(rhs[i + 1]));
            }
            if i > 0 {
                temp = temp.plus(self.lower_diagonal[i - 1].times(rhs[i - 1]));
            }
            ret.push(temp);
            i += 1;
        }
        assert(ret@ =~= mat_times(lower, diag, upper, rhs@));
        Some(ret)
    }
}

/// The Thomas algorithm on a system of size at least two whose diagonals have
/// the right lengths: a forward sweep, then back substitution.
pub fn solve_with_thomas_algorithm_unchecked<V: Value>(
    matrix_size: usize,
    lower_diagonal: &[V],
    diagonal: &[V],
    upper_diagonal: &[V],
    b: &[V],
) -> (r: Vec<V>)
    requires
        matrix_size >= 2,
        shape_ok(lower_diagonal@, diagonal@, upper_diagonal@),
        diagonal@.len() == matrix_size,
        b@.len() == matrix_size,
    ensures
        r@ == thomas(lower_diagonal@, diagonal@, upper_diagonal@, b@),
{
    let ghost lower = lower_diagonal@;
    let ghost diag = diagonal@;
    let ghost upper = upper_diagonal@;
    let n = matrix_size;
    let mut scratch: Vec<V> = Vec::new();
    let mut x: Vec<V> = Vec::new();
    scratch.push(upper_diagonal[0].over(diagonal[0]));
    x.push(b[0].over(diagonal[0]));
    let mut ix: usize = 1;
    while ix < n
        invariant
            lower == lower_diagonal@,
            diag == diagonal@,
            upper == upper_diagonal@,
            shape_ok(lower, diag, upper),
            n == diag.len(),
            b@.len() == n,
            1 <= ix <= n,
            scratch@.len() == if ix < n - 1 { ix as int } else { n - 1 },
            forall|k: int| 0 <= k < scratch@.len() ==> scratch@[k] == sweep_upper(lower, diag, upper, k as nat),
            x@.len() == ix,
            forall|k: int| 0 <= k < ix ==> x@[k] == sweep_rhs(lower, diag, upper, b@, k as nat),
        decreases n - ix,
    {
        let p = diagonal[ix].minus(lower_diagonal[ix - 1].times(scratch[ix - 1]));
        proof {
            assert(p == pivot(lower, diag, upper, ix as nat));
        }
        if ix < n - 1 {
            scratch.push(upper_diagonal[ix].over(p));
        }
        let v = b[ix].minus(lower_diagonal[ix - 1].times(x[ix - 1])).over(p);
        x.push(v);
        ix += 1;
    }
    let mut i: usize = n - 1;
    while i > 0
        invariant
            lower == lower_diagonal@,
            diag == diagonal@,
            upper == upper_diagonal@,
            shape_ok(lower, diag, upper),
            n == diag.len(),
            n >= 2,
            scratch@.len() == n - 1,
            forall|k: int| 0 <= k < n - 1 ==> scratch@[k] == sweep_upper(lower, diag, upper, k as nat),
            x@.len() == n,
            0 <= i < n,
            forall|k: int| 0 <= k < i ==> x@[k] == sweep_rhs(lower, diag, upper, b@, k as nat),
            forall|k: int| i <= k < n ==> x@[k] == back_substitution(lower, diag, upper, b@, k as nat),
        decreases i,
    {
        i -= 1;
        let temp = scratch[i].times(x[i + 1]);
        let v = x[i].minus(temp);
        x.set(i, v);
    }
    assert(x@ =~= thomas(lower, diag, upper, b@));
    x
}

/// Every pivot of the forward sweep is nonzero.
pub open spec fn pivots_nonzero<V: Value>(lower: Seq<V>, diag: Seq<V>, upper: Seq<V>) -> bool {
    forall|i: nat| i < diag.len() ==> #[trigger] pivot(lower, diag, upper, i) != zero::<V>()
}

/// Row `i` of the matrix times the Thomas solution is `b[i]`.
proof fn lemma_row_round_trip<V: Value>(lower: Seq<V>, diag: Seq<V>, upper: Seq<V>, b: Seq<V>, i: nat)
    requires
        is_ordered_field::<V>(),
        shape_ok(lower, diag, upper),
        b.len() == diag.len(),
        pivots_nonzero(lower, diag, upper),
        i < diag.len(),
    ensures
        row_times(lower, diag, upper, thomas(lower, diag, upper, b), i as int) == b[i as int],
{
    let n = diag.len();
    let x = thomas(lower, diag, upper, b);
    let xi = x[i as int];
    let m = pivot(lower, diag, upper, i);
    let dp = sweep_rhs(lower, diag, upper, b, i);
    assert(m != zero::<V>());
    // p == m * x[i] + upper[i] * x[i + 1int] (without the second term on the
    // last row) equals m * dp.
    let p = if i + 1 < n {
        m.mul_spec(xi).add_spec(upper[i as int].mul_spec(x[i + 1int]))
    } else {
        m.mul_spec(xi)
    };
    if i + 1 < n {
        let xn = x[i + 1int];
        let cp = sweep_upper(lower, diag, upper, i);
        assert(xi == dp.sub_spec(cp.mul_spec(xn)));
        lemma_sub_add_cancel(dp, cp.mul_spec(xn));
        lemma_div_mul(upper[i as int], m);
        lemma_mul_comm(cp, m);
        lemma_mul_assoc(m, cp, xn);
        lemma_distrib(m, xi, cp.mul_spec(xn));
    } else {
        assert(xi == dp);
    }
    assert(p == m.mul_spec(dp));
    lemma_mul_comm(m, dp);
    if i == 0 {
        lemma_div_mul(b[0], diag[0]);
        assert(row_times(lower, diag, upper, x, 0) == p);
    } else {
        let a = lower[i - 1];
        let k = (i - 1) as nat;
        let cpp = sweep_upper(lower, diag, upper, k);
        let dpp = sweep_rhs(lower, diag, upper, b, k);
        let r = a.mul_spec(dpp);
        let t = a.mul_spec(cpp.mul_spec(xi));
        // m * dp == b[i] - a * dpp.
        lemma_div_mul(b[i as int].sub_spec(r), m);
        // diag[i] * x[i] == m * x[i] + t.
        lemma_sub_add_cancel(diag[i as int], a.mul_spec(cpp));
        lemma_add_comm(m, a.mul_spec(cpp));
        lemma_distrib(xi, m, a.mul_spec(cpp));
        lemma_mul_comm(m, xi);
        lemma_mul_comm(a.mul_spec(cpp), xi);
        lemma_mul_assoc(a, cpp, xi);
        assert(diag[i as int].mul_spec(xi) == m.mul_spec(xi).add_spec(t));
        // a * x[i - 1] == r + -t.
        assert(x[k as int] == dpp.sub_spec(cpp.mul_spec(xi)));
        lemma_mul_sub(a, dpp, cpp.mul_spec(xi));
        if i + 1 < n {
            lemma_cancel_pair_around(
                m.mul_spec(xi),
                t,
                upper[i as int].mul_spec(x[i + 1int]),
                r,
            );
        } else {
            lemma_cancel_pair(m.mul_spec(xi), t, r);
        }
        lemma_sub_add_cancel(b[i as int], r);
    }
}

/// Solving with the Thomas algorithm and multiplying the solution by the
/// matrix gives back the right-hand side, in exact arithmetic, whenever no
/// pivot of the elimination is zero (as for a diagonally dominant matrix).
pub proof fn lemma_solve_round_trip<V: Value>(lower: Seq<V>, diag: Seq<V>, upper: Seq<V>, b: Seq<V>)
    requires
        is_ordered_field::<V>(),
        shape_ok(lower, diag, upper),
        b.len() == diag.len(),
        pivots_nonzero(lower, diag, upper),
    ensures
        mat_times(lower, diag, upper, thomas(lower, diag, upper, b)) == b,
{
    let x = thomas(lower, diag, upper, b);
    assert forall|i: int| 0 <= i < b.len() implies #[trigger] mat_times(lower, diag, upper, x)[i]
        == b[i] by {
        lemma_row_round_trip(lower, diag, upper, b, i as nat);
    }
    assert(mat_times(lower, diag, upper, x) =~= b);
}

} // verus!
