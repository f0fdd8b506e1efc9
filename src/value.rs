use vstd::prelude::*;

verus! {

/// The numeric capability that every sample value provides: the four
/// arithmetic operations, negation, comparison, small integer constants and
/// the exponential.
///
/// Each executable operation computes the type's own spec operation, so a
/// contract written over the spec operations describes exactly what is
/// computed, rounding included. The spec operations default to unknown
/// values, so an implementation outside verified code (for instance over
/// `f64`) supplies only the executable ones. No law of the operations is
/// assumed: results that need one take `is_total_preorder` or
/// `field::is_ordered_field` as a hypothesis.
pub trait Value: Copy + Sized {
    closed spec fn add_spec(self, rhs: Self) -> Self {
        arbitrary()
    }

    closed spec fn sub_spec(self, rhs: Self) -> Self {
        arbitrary()
    }

    closed spec fn mul_spec(self, rhs: Self) -> Self {
        arbitrary()
    }

    closed spec fn div_spec(self, rhs: Self) -> Self {
        arbitrary()
    }

    closed spec fn neg_spec(self) -> Self {
        arbitrary()
    }

    /// `self <= rhs`.
    closed spec fn le_spec(self, rhs: Self) -> bool {
        arbitrary()
    }

    closed spec fn exp_spec(self) -> Self {
        arbitrary()
    }

    /// The integer `n` as a value.
    closed spec fn lit_spec(n: int) -> Self {
        arbitrary()
    }

    fn plus(self, rhs: Self) -> (r: Self)
        ensures
            r == self.add_spec(rhs),
    ;

    fn minus(self, rhs: Self) -> (r: Self)
        ensures
            r == self.sub_spec(rhs),
    ;

    fn times(self, rhs: Self) -> (r: Self)
        ensures
            r == self.mul_spec(rhs),
    ;

    fn over(self, rhs: Self) -> (r: Self)
        ensures
            r == self.div_spec(rhs),
    ;

    fn negated(self) -> (r: Self)
        ensures
            r == self.neg_spec(),
    ;

    fn at_most(self, rhs: Self) -> (r: bool)
        ensures
            r == self.le_spec(rhs),
    ;

    fn exp(self) -> (r: Self)
        ensures
            r == self.exp_spec(),
    ;

    fn from_i32(n: i32) -> (r: Self)
        ensures
            r == Self::lit_spec(n as int),
    ;
}

/// The value zero.
pub open spec fn zero<V: Value>() -> V {
    V::lit_spec(0)
}

/// The value one.
pub open spec fn one<V: Value>() -> V {
    V::lit_spec(1)
}

/// `le_spec` is a total preorder: any two values compare, and comparisons
/// chain. A floating-point type meets this on the values other than NaN.
#[verifier::opaque]
pub open spec fn is_total_preorder<V: Value>() -> bool {
    &&& forall|a: V, b: V| #![trigger a.le_spec(b)] a.le_spec(b) || b.le_spec(a)
    &&& forall|a: V, b: V, c: V|
        #![trigger a.le_spec(b), b.le_spec(c)]
        a.le_spec(b) && b.le_spec(c) ==> a.le_spec(c)
}

pub proof fn lemma_le_total<V: Value>(a: V, b: V)
    requires
        is_total_preorder::<V>(),
    ensures
        a.le_spec(b) || b.le_spec(a),
{
    reveal(is_total_preorder);
}

pub proof fn lemma_le_transitive<V: Value>(a: V, b: V, c: V)
    requires
        is_total_preorder::<V>(),
        a.le_spec(b),
        b.le_spec(c),
    ensures
        a.le_spec(c),
{
    reveal(is_total_preorder);
}

} // verus!
