use crate::value::{is_total_preorder, lemma_le_total, lemma_le_transitive, one, zero, Value};
use vstd::prelude::*;

verus! {

/// The operations of `V` are those of an exact ordered field: sums, products
/// and quotients carry no rounding, and the order is compatible with them.
/// Results that hold only of exact arithmetic take this as a hypothesis; a
/// floating-point type meets them up to rounding.
#[verifier::opaque]
pub open spec fn is_ordered_field<V: Value>() -> bool {
    &&& is_total_preorder::<V>()
    &&& forall|a: V, b: V| #[trigger] a.add_spec(b) == b.add_spec(a)
    &&& forall|a: V, b: V, c: V| #[trigger] a.add_spec(b).add_spec(c) == a.add_spec(b.add_spec(c))
    &&& forall|a: V| #[trigger] a.add_spec(zero()) == a
    &&& forall|a: V| #[trigger] a.add_spec(a.neg_spec()) == zero::<V>()
    &&& forall|a: V, b: V| #[trigger] a.sub_spec(b) == a.add_spec(b.neg_spec())
    &&& forall|a: V, b: V| #[trigger] a.mul_spec(b) == b.mul_spec(a)
    &&& forall|a: V, b: V, c: V| #[trigger] a.mul_spec(b).mul_spec(c) == a.mul_spec(b.mul_spec(c))
    &&& forall|a: V| #[trigger] a.mul_spec(one()) == a
    &&& forall|a: V, b: V, c: V| #[trigger] a.mul_spec(b.add_spec(c)) == a.mul_spec(b).add_spec(a.mul_spec(c))
    &&& forall|a: V, b: V| b != zero::<V>() ==> #[trigger] a.div_spec(b).mul_spec(b) == a
    &&& forall|m: int, n: int| #[trigger] V::lit_spec(m).add_spec(V::lit_spec(n)) == V::lit_spec(m + n)
    &&& forall|n: int| #[trigger] V::lit_spec(n).neg_spec() == V::lit_spec(-n)
    &&& forall|m: int, n: int|
        #![trigger V::lit_spec(m), V::lit_spec(n)]
        V::lit_spec(m) == V::lit_spec(n) ==> m == n
    &&& forall|a: V, b: V|
        #![trigger a.le_spec(b), b.le_spec(a)]
        a.le_spec(b) && b.le_spec(a) ==> a == b
    &&& forall|a: V, b: V, c: V| a.le_spec(b) ==> #[trigger] a.add_spec(c).le_spec(b.add_spec(c))
    &&& forall|a: V, b: V|
        zero::<V>().le_spec(a) && zero::<V>().le_spec(b) ==> #[trigger] zero::<V>().le_spec(a.mul_spec(b))
}

pub proof fn lemma_field_preorder<V: Value>()
    requires
        is_ordered_field::<V>(),
    ensures
        is_total_preorder::<V>(),
{
    reveal(is_ordered_field);
}

pub proof fn lemma_add_comm<V: Value>(a: V, b: V)
    requires
        is_ordered_field::<V>(),
    ensures
        a.add_spec(b) == b.add_spec(a),
{
    reveal(is_ordered_field);
}

pub proof fn lemma_add_assoc<V: Value>(a: V, b: V, c: V)
    requires
        is_ordered_field::<V>(),
    ensures
        a.add_spec(b).add_spec(c) == a.add_spec(b.add_spec(c)),
{
    reveal(is_ordered_field);
}

pub proof fn lemma_add_zero<V: Value>(a: V)
    requires
        is_ordered_field::<V>(),
    ensures
        a.add_spec(zero()) == a,
        zero::<V>().add_spec(a) == a,
{
    reveal(is_ordered_field);
    assert(a.add_spec(zero()) == zero::<V>().add_spec(a));
}

pub proof fn lemma_add_neg<V: Value>(a: V)
    requires
        is_ordered_field::<V>(),
    ensures
        a.add_spec(a.neg_spec()) == zero::<V>(),
        a.sub_spec(a) == zero::<V>(),
{
    reveal(is_ordered_field);
    assert(a.sub_spec(a) == a.add_spec(a.neg_spec()));
}

pub proof fn lemma_sub_add<V: Value>(a: V, b: V)
    requires
        is_ordered_field::<V>(),
    ensures
        a.sub_spec(b) == a.add_spec(b.neg_spec()),
{
    reveal(is_ordered_field);
}

pub proof fn lemma_mul_comm<V: Value>(a: V, b: V)
    requires
        is_ordered_field::<V>(),
    ensures
        a.mul_spec(b) == b.mul_spec(a),
{
    reveal(is_ordered_field);
}

pub proof fn lemma_mul_assoc<V: Value>(a: V, b: V, c: V)
    requires
        is_ordered_field::<V>(),
    ensures
        a.mul_spec(b).mul_spec(c) == a.mul_spec(b.mul_spec(c)),
{
    reveal(is_ordered_field);
}

pub proof fn lemma_mul_one<V: Value>(a: V)
    requires
        is_ordered_field::<V>(),
    ensures
        a.mul_spec(one()) == a,
        one::<V>().mul_spec(a) == a,
{
    reveal(is_ordered_field);
    assert(a.mul_spec(one()) == one::<V>().mul_spec(a));
}

pub proof fn lemma_distrib<V: Value>(a: V, b: V, c: V)
    requires
        is_ordered_field::<V>(),
    ensures
        a.mul_spec(b.add_spec(c)) == a.mul_spec(b).add_spec(a.mul_spec(c)),
        b.add_spec(c).mul_spec(a) == b.mul_spec(a).add_spec(c.mul_spec(a)),
{
    reveal(is_ordered_field);
    assert(b.add_spec(c).mul_spec(a) == a.mul_spec(b.add_spec(c)));
    assert(b.mul_spec(a) == a.mul_spec(b));
    assert(c.mul_spec(a) == a.mul_spec(c));
}

pub proof fn lemma_div_mul<V: Value>(a: V, b: V)
    requires
        is_ordered_field::<V>(),
        b != zero::<V>(),
    ensures
        a.div_spec(b).mul_spec(b) == a,
{
    reveal(is_ordered_field);
}

pub proof fn lemma_lit_neg<V: Value>(n: int)
    requires
        is_ordered_field::<V>(),
    ensures
        V::lit_spec(n).neg_spec() == V::lit_spec(-n),
{
    reveal(is_ordered_field);
}

pub proof fn lemma_lit_injective<V: Value>(m: int, n: int)
    requires
        is_ordered_field::<V>(),
        V::lit_spec(m) == V::lit_spec(n),
    ensures
        m == n,
{
    reveal(is_ordered_field);
}

pub proof fn lemma_le_antisymmetric<V: Value>(a: V, b: V)
    requires
        is_ordered_field::<V>(),
        a.le_spec(b),
        b.le_spec(a),
    ensures
        a == b,
{
    reveal(is_ordered_field);
}

pub proof fn lemma_le_add<V: Value>(a: V, b: V, c: V)
    requires
        is_ordered_field::<V>(),
        a.le_spec(b),
    ensures
        a.add_spec(c).le_spec(b.add_spec(c)),
{
    reveal(is_ordered_field);
}

pub proof fn lemma_mul_nonneg<V: Value>(a: V, b: V)
    requires
        is_ordered_field::<V>(),
        zero::<V>().le_spec(a),
        zero::<V>().le_spec(b),
    ensures
        zero::<V>().le_spec(a.mul_spec(b)),
{
    reveal(is_ordered_field);
}

/// Adding the same value on the right can be undone.
pub proof fn lemma_add_cancel<V: Value>(a: V, b: V, c: V)
    requires
        is_ordered_field::<V>(),
        a.add_spec(c) == b.add_spec(c),
    ensures
        a == b,
{
    lemma_add_assoc(a, c, c.neg_spec());
    lemma_add_assoc(b, c, c.neg_spec());
    lemma_add_neg(c);
    lemma_add_zero(a);
    lemma_add_zero(b);
}

pub proof fn lemma_mul_zero<V: Value>(a: V)
    requires
        is_ordered_field::<V>(),
    ensures
        a.mul_spec(zero()) == zero::<V>(),
        zero::<V>().mul_spec(a) == zero::<V>(),
{
    let z = zero::<V>();
    lemma_add_zero(z);
    lemma_distrib(a, z, z);
    lemma_add_zero(a.mul_spec(z));
    lemma_add_comm(z, a.mul_spec(z));
    lemma_add_cancel(a.mul_spec(z), z, a.mul_spec(z));
    lemma_mul_comm(a, z);
}

/// `a - b == 0` exactly when `a == b`.
pub proof fn lemma_sub_zero<V: Value>(a: V, b: V)
    requires
        is_ordered_field::<V>(),
    ensures
        (a.sub_spec(b) == zero::<V>()) == (a == b),
{
    lemma_add_neg(a);
    if a.sub_spec(b) == zero::<V>() {
        lemma_sub_add(a, b);
        lemma_add_neg(b);
        lemma_add_comm(b, b.neg_spec());
        lemma_add_comm(a, b.neg_spec());
        lemma_add_cancel(a, b, b.neg_spec());
    }
}

/// Zero divided by a nonzero value is zero.
pub proof fn lemma_zero_div<V: Value>(b: V)
    requires
        is_ordered_field::<V>(),
        b != zero::<V>(),
    ensures
        zero::<V>().div_spec(b) == zero::<V>(),
{
    let q = zero::<V>().div_spec(b);
    lemma_div_mul(zero::<V>(), b);
    lemma_no_zero_divisors(q, b);
}

/// A product is zero only when a factor is.
pub proof fn lemma_no_zero_divisors<V: Value>(a: V, b: V)
    requires
        is_ordered_field::<V>(),
        a.mul_spec(b) == zero::<V>(),
    ensures
        a == zero::<V>() || b == zero::<V>(),
{
    if b != zero::<V>() {
        let inv = one::<V>().div_spec(b);
        lemma_div_mul(one::<V>(), b);
        lemma_mul_assoc(a, b, inv);
        lemma_mul_comm(b, inv);
        lemma_mul_zero(inv);
        lemma_mul_comm(a.mul_spec(b), inv);
        lemma_mul_one(a);
    }
}

/// A nonzero factor on the right can be cancelled.
pub proof fn lemma_mul_cancel<V: Value>(x: V, y: V, c: V)
    requires
        is_ordered_field::<V>(),
        c != zero::<V>(),
        x.mul_spec(c) == y.mul_spec(c),
    ensures
        x == y,
{
    let inv = one::<V>().div_spec(c);
    lemma_div_mul(one::<V>(), c);
    lemma_mul_comm(inv, c);
    lemma_mul_assoc(x, c, inv);
    lemma_mul_assoc(y, c, inv);
    lemma_mul_one(x);
    lemma_mul_one(y);
}

/// Negation passes through a product.
pub proof fn lemma_mul_neg<V: Value>(a: V, b: V)
    requires
        is_ordered_field::<V>(),
    ensures
        a.mul_spec(b.neg_spec()) == a.mul_spec(b).neg_spec(),
{
    let ab = a.mul_spec(b);
    lemma_distrib(a, b.neg_spec(), b);
    lemma_add_neg(b);
    lemma_add_comm(b.neg_spec(), b);
    lemma_mul_zero(a);
    lemma_add_neg(ab);
    lemma_add_comm(ab.neg_spec(), ab);
    lemma_add_cancel(a.mul_spec(b.neg_spec()), ab.neg_spec(), ab);
}

/// A nonzero integer is a nonzero value.
pub proof fn lemma_lit_nonzero<V: Value>(n: int)
    requires
        is_ordered_field::<V>(),
        n != 0,
    ensures
        V::lit_spec(n) != zero::<V>(),
{
    if V::lit_spec(n) == zero::<V>() {
        lemma_lit_injective::<V>(n, 0);
    }
}

/// Subtracting then adding back the same value cancels.
pub proof fn lemma_sub_add_cancel<V: Value>(p: V, q: V)
    requires
        is_ordered_field::<V>(),
    ensures
        p.sub_spec(q).add_spec(q) == p,
{
    lemma_sub_add(p, q);
    lemma_add_assoc(p, q.neg_spec(), q);
    lemma_add_neg(q);
    lemma_add_comm(q.neg_spec(), q);
    lemma_add_zero(p);
}

/// A product distributes over a difference.
pub proof fn lemma_mul_sub<V: Value>(a: V, p: V, q: V)
    requires
        is_ordered_field::<V>(),
    ensures
        a.mul_spec(p.sub_spec(q)) == a.mul_spec(p).add_spec(a.mul_spec(q).neg_spec()),
{
    lemma_sub_add(p, q);
    lemma_distrib(a, p, q.neg_spec());
    lemma_mul_neg(a, q);
}

/// `(p + t) + (r + -t) == p + r`.
pub proof fn lemma_cancel_pair<V: Value>(p: V, t: V, r: V)
    requires
        is_ordered_field::<V>(),
    ensures
        p.add_spec(t).add_spec(r.add_spec(t.neg_spec())) == p.add_spec(r),
{
    let nt = t.neg_spec();
    lemma_add_assoc(p, t, r.add_spec(nt));
    lemma_add_comm(r, nt);
    lemma_add_assoc(t, nt, r);
    lemma_add_neg(t);
    lemma_add_zero(r);
}

/// `((p + t) + q) + (r + -t) == (p + q) + r`.
pub proof fn lemma_cancel_pair_around<V: Value>(p: V, t: V, q: V, r: V)
    requires
        is_ordered_field::<V>(),
    ensures
        p.add_spec(t).add_spec(q).add_spec(r.add_spec(t.neg_spec())) == p.add_spec(q).add_spec(r),
{
    lemma_add_assoc(p, t, q);
    lemma_add_comm(t, q);
    lemma_add_assoc(p, q, t);
    lemma_cancel_pair(p.add_spec(q), t, r);
}

/// Adding the same value on the left keeps an inequality.
pub proof fn lemma_le_add_left<V: Value>(c: V, a: V, b: V)
    requires
        is_ordered_field::<V>(),
        a.le_spec(b),
    ensures
        c.add_spec(a).le_spec(c.add_spec(b)),
{
    lemma_le_add(a, b, c);
    lemma_add_comm(a, c);
    lemma_add_comm(b, c);
}

/// `a <= b` exactly when `0 <= b - a`.
pub proof fn lemma_le_sub<V: Value>(a: V, b: V)
    requires
        is_ordered_field::<V>(),
    ensures
        a.le_spec(b) == zero::<V>().le_spec(b.sub_spec(a)),
{
    lemma_sub_add(b, a);
    if a.le_spec(b) {
        lemma_le_add(a, b, a.neg_spec());
        lemma_add_neg(a);
        assert(b.sub_spec(a) == b.add_spec(a.neg_spec()));
    }
    if zero::<V>().le_spec(b.sub_spec(a)) {
        lemma_le_add(zero::<V>(), b.sub_spec(a), a);
        lemma_add_zero(a);
        lemma_sub_add_cancel(b, a);
    }
}

/// A nonnegative factor keeps an inequality.
pub proof fn lemma_mul_le<V: Value>(s: V, a: V, b: V)
    requires
        is_ordered_field::<V>(),
        zero::<V>().le_spec(s),
        a.le_spec(b),
    ensures
        s.mul_spec(a).le_spec(s.mul_spec(b)),
{
    lemma_le_sub(a, b);
    lemma_mul_nonneg(s, b.sub_spec(a));
    lemma_mul_sub(s, b, a);
    lemma_sub_add(s.mul_spec(b), s.mul_spec(a));
    lemma_le_sub(s.mul_spec(a), s.mul_spec(b));
}

/// A nonnegative value over a positive one is nonnegative.
pub proof fn lemma_div_nonneg<V: Value>(d: V, h: V)
    requires
        is_ordered_field::<V>(),
        zero::<V>().le_spec(d),
        zero::<V>().le_spec(h),
        h != zero::<V>(),
    ensures
        zero::<V>().le_spec(d.div_spec(h)),
{
    let z = zero::<V>();
    let q = d.div_spec(h);
    lemma_field_preorder::<V>();
    lemma_div_mul(d, h);
    lemma_le_total(z, q);
    if !z.le_spec(q) {
        lemma_le_add(q, z, q.neg_spec());
        lemma_add_neg(q);
        lemma_add_zero(q.neg_spec());
        lemma_mul_nonneg(q.neg_spec(), h);
        lemma_mul_comm(q.neg_spec(), h);
        lemma_mul_neg(h, q);
        lemma_mul_comm(h, q);
        // 0 <= -d, so d <= 0, so d == 0.
        lemma_le_sub(d, z);
        lemma_add_zero(d.neg_spec());
        lemma_sub_add(z, d);
        lemma_add_comm(z, d.neg_spec());
        lemma_le_antisymmetric(d, z);
        lemma_no_zero_divisors(q, h);
        lemma_le_total(z, z);
    }
}

/// `a + (b - a) == b`.
pub proof fn lemma_add_sub_back<V: Value>(a: V, b: V)
    requires
        is_ordered_field::<V>(),
    ensures
        a.add_spec(b.sub_spec(a)) == b,
{
    lemma_add_comm(a, b.sub_spec(a));
    lemma_sub_add_cancel(b, a);
}

/// Negating twice gives the value back.
pub proof fn lemma_neg_neg<V: Value>(a: V)
    requires
        is_ordered_field::<V>(),
    ensures
        a.neg_spec().neg_spec() == a,
{
    let n = a.neg_spec();
    lemma_add_neg(n);
    lemma_add_neg(a);
    lemma_add_comm(a, n);
    lemma_add_comm(n.neg_spec(), n);
    lemma_add_cancel(n.neg_spec(), a, n);
}

/// Negation reverses an inequality.
pub proof fn lemma_le_neg<V: Value>(a: V, b: V)
    requires
        is_ordered_field::<V>(),
        a.le_spec(b),
    ensures
        b.neg_spec().le_spec(a.neg_spec()),
{
    lemma_le_sub(a, b);
    lemma_le_sub(b.neg_spec(), a.neg_spec());
    lemma_sub_add(b, a);
    lemma_sub_add(a.neg_spec(), b.neg_spec());
    lemma_neg_neg(b);
    lemma_add_comm(b, a.neg_spec());
}

/// A factor whose product with a positive value is nonnegative is
/// nonnegative.
pub proof fn lemma_nonneg_factor<V: Value>(a: V, h: V)
    requires
        is_ordered_field::<V>(),
        zero::<V>().le_spec(a.mul_spec(h)),
        zero::<V>().le_spec(h),
        h != zero::<V>(),
    ensures
        zero::<V>().le_spec(a),
{
    lemma_div_mul(a.mul_spec(h), h);
    lemma_mul_cancel(a.mul_spec(h).div_spec(h), a, h);
    lemma_div_nonneg(a.mul_spec(h), h);
}

/// `exp_spec` is an exponential: it turns sums into products and takes zero
/// to one. Results about discount factors that need this take it as a
/// hypothesis beside `is_ordered_field`.
#[verifier::opaque]
pub open spec fn is_exponential<V: Value>() -> bool {
    &&& forall|a: V, b: V|
        #[trigger] a.exp_spec().mul_spec(b.exp_spec()) == a.add_spec(b).exp_spec()
    &&& zero::<V>().exp_spec() == one::<V>()
}

pub proof fn lemma_exp_add<V: Value>(a: V, b: V)
    requires
        is_exponential::<V>(),
    ensures
        a.exp_spec().mul_spec(b.exp_spec()) == a.add_spec(b).exp_spec(),
{
    reveal(is_exponential);
}

pub proof fn lemma_exp_zero<V: Value>()
    requires
        is_exponential::<V>(),
    ensures
        zero::<V>().exp_spec() == one::<V>(),
{
    reveal(is_exponential);
}

/// `v` is positive.
pub open spec fn positive<V: Value>(v: V) -> bool {
    zero::<V>().le_spec(v) && v != zero::<V>()
}

/// Adding nonnegative values gives a nonnegative value no smaller than each.
pub proof fn lemma_add_nonneg<V: Value>(a: V, b: V)
    requires
        is_ordered_field::<V>(),
        zero::<V>().le_spec(a),
        zero::<V>().le_spec(b),
    ensures
        zero::<V>().le_spec(a.add_spec(b)),
        a.le_spec(a.add_spec(b)),
{
    lemma_field_preorder::<V>();
    lemma_le_add(zero::<V>(), b, a);
    lemma_add_zero(a);
    lemma_add_comm(b, a);
    lemma_le_transitive(zero::<V>(), a, a.add_spec(b));
}

/// Positive integers are positive values.
pub proof fn lemma_lit_positive<V: Value>(n: int)
    requires
        is_ordered_field::<V>(),
        n > 0,
    ensures
        positive(V::lit_spec(n)),
    decreases n,
{
    lemma_field_preorder::<V>();
    lemma_lit_nonzero::<V>(n);
    let z = zero::<V>();
    let o = one::<V>();
    // 0 <= 1: otherwise 0 <= -1, and then 0 <= (-1) * (-1) == 1.
    lemma_le_total(z, o);
    if !z.le_spec(o) {
        lemma_le_neg(o, z);
        lemma_lit_neg::<V>(0);
        lemma_mul_nonneg(o.neg_spec(), o.neg_spec());
        lemma_mul_neg(o.neg_spec(), o);
        lemma_mul_one(o.neg_spec());
        lemma_neg_neg(o);
    }
    if n > 1 {
        lemma_lit_positive::<V>(n - 1);
        reveal(is_ordered_field);
        assert(V::lit_spec(n - 1).add_spec(V::lit_spec(1)) == V::lit_spec(n));
        lemma_add_nonneg(V::lit_spec(n - 1), o);
    }
}

/// A positive value over a positive value is positive.
pub proof fn lemma_div_positive<V: Value>(a: V, b: V)
    requires
        is_ordered_field::<V>(),
        positive(a),
        positive(b),
    ensures
        positive(a.div_spec(b)),
{
    lemma_div_nonneg(a, b);
    lemma_div_mul(a, b);
    lemma_mul_zero(b);
}

/// When `s * p <= p` for a positive `p`, `s <= 1`.
pub proof fn lemma_le_one_of_mul<V: Value>(s: V, p: V)
    requires
        is_ordered_field::<V>(),
        positive(p),
        s.mul_spec(p).le_spec(p),
    ensures
        s.le_spec(one()),
{
    let o = one::<V>();
    lemma_le_sub(s.mul_spec(p), p);
    lemma_mul_sub(p, o, s);
    lemma_mul_one(p);
    lemma_mul_comm(p, s);
    lemma_sub_add(p, s.mul_spec(p));
    lemma_mul_comm(p, o.sub_spec(s));
    lemma_nonneg_factor(o.sub_spec(s), p);
    lemma_le_sub(s, o);
}

} // verus!
