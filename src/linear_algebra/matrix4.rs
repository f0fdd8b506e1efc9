use crate::field::{is_ordered_field, lemma_add_zero, lemma_mul_one, lemma_mul_zero};
use crate::value::{one, zero, Value};
use vstd::prelude::*;

verus! {

/// A vector of four values.
#[derive(Clone, Copy, Debug)]
pub struct Vector4<V> {
    pub x: V,
    pub y: V,
    pub z: V,
    pub w: V,
}

/// A 4x4 matrix, stored by rows.
#[derive(Clone, Copy, Debug)]
pub struct Matrix4<V> {
    pub r0: Vector4<V>,
    pub r1: Vector4<V>,
    pub r2: Vector4<V>,
    pub r3: Vector4<V>,
}

/// `a . b`, summed from the first component to the last.
pub open spec fn dot_spec<V: Value>(a: Vector4<V>, b: Vector4<V>) -> V {
    a.x.mul_spec(b.x).add_spec(a.y.mul_spec(b.y)).add_spec(a.z.mul_spec(b.z)).add_spec(
        a.w.mul_spec(b.w),
    )
}

/// The matrix `m` times the column vector `v`.
pub open spec fn mul_vec_spec<V: Value>(m: Matrix4<V>, v: Vector4<V>) -> Vector4<V> {
    Vector4 {
        x: dot_spec(m.r0, v),
        y: dot_spec(m.r1, v),
        z: dot_spec(m.r2, v),
        w: dot_spec(m.r3, v),
    }
}

/// The transpose of `m`.
pub open spec fn transpose_spec<V>(m: Matrix4<V>) -> Matrix4<V> {
    Matrix4 {
        r0: Vector4 { x: m.r0.x, y: m.r1.x, z: m.r2.x, w: m.r3.x },
        r1: Vector4 { x: m.r0.y, y: m.r1.y, z: m.r2.y, w: m.r3.y },
        r2: Vector4 { x: m.r0.z, y: m.r1.z, z: m.r2.z, w: m.r3.z },
        r3: Vector4 { x: m.r0.w, y: m.r1.w, z: m.r2.w, w: m.r3.w },
    }
}

/// The row vector `d` times the matrix `m`.
pub open spec fn vec_mul_spec<V: Value>(d: Vector4<V>, m: Matrix4<V>) -> Vector4<V> {
    mul_vec_spec(transpose_spec(m), d)
}

/// The unit vector `[0, 0, 0, 1]`.
pub open spec fn unit_w<V: Value>() -> Vector4<V> {
    Vector4 { x: zero(), y: zero(), z: zero(), w: one() }
}

/// Dotting with a vector whose only nonzero component is the last picks that
/// component of the other.
pub proof fn lemma_dot_unit_w<V: Value>(v: Vector4<V>)
    requires
        is_ordered_field::<V>(),
    ensures
        dot_spec(unit_w(), v) == v.w,
        dot_spec(v, unit_w()) == v.w,
{
    lemma_mul_zero(v.x);
    lemma_mul_zero(v.y);
    lemma_mul_zero(v.z);
    lemma_mul_one(v.w);
    lemma_add_zero(zero::<V>());
    lemma_add_zero(v.w);
}

/// Dotting `[1, 0, 0, 0]` with `v` gives `v.x`.
pub proof fn lemma_dot_unit_x<V: Value>(v: Vector4<V>)
    requires
        is_ordered_field::<V>(),
    ensures
        dot_spec(Vector4 { x: one(), y: zero(), z: zero(), w: zero() }, v) == v.x,
{
    lemma_mul_zero(v.y);
    lemma_mul_zero(v.z);
    lemma_mul_zero(v.w);
    lemma_mul_one(v.x);
    lemma_add_zero(v.x);
}

/// Dotting `[0, 1, 0, 0]` with `v` gives `v.y`.
pub proof fn lemma_dot_unit_y<V: Value>(v: Vector4<V>)
    requires
        is_ordered_field::<V>(),
    ensures
        dot_spec(Vector4 { x: zero(), y: one(), z: zero(), w: zero() }, v) == v.y,
{
    lemma_mul_zero(v.x);
    lemma_mul_zero(v.z);
    lemma_mul_zero(v.w);
    lemma_mul_one(v.y);
    lemma_add_zero(v.y);
}

/// The row vector `[0, 0, 0, 1]` times `m` is the last row of `m`.
pub proof fn lemma_unit_w_times<V: Value>(m: Matrix4<V>)
    requires
        is_ordered_field::<V>(),
    ensures
        vec_mul_spec(unit_w(), m) == m.r3,
{
    let t = transpose_spec(m);
    lemma_dot_unit_w(t.r0);
    lemma_dot_unit_w(t.r1);
    lemma_dot_unit_w(t.r2);
    lemma_dot_unit_w(t.r3);
}

impl<V: Value> Vector4<V> {
    pub fn new(x: V, y: V, z: V, w: V) -> (r: Self)
        ensures
            r == (Vector4 { x, y, z, w }),
    {
        Vector4 { x, y, z, w }
    }

    pub fn dot(self, rhs: Self) -> (r: V)
        ensures
            r == dot_spec(self, rhs),
    {
        self.x.times(rhs.x).plus(self.y.times(rhs.y)).plus(self.z.times(rhs.z)).plus(
            self.w.times(rhs.w),
        )
    }

    /// This row vector times `m`.
    pub fn mul_matrix(self, m: &Matrix4<V>) -> (r: Vector4<V>)
        ensures
            r == vec_mul_spec(self, *m),
    {
        m.transpose().mul_vec(self)
    }
}

impl<V: Value> Matrix4<V> {
    pub fn from_rows(r0: Vector4<V>, r1: Vector4<V>, r2: Vector4<V>, r3: Vector4<V>) -> (r: Self)
        ensures
            r == (Matrix4 { r0, r1, r2, r3 }),
    {
        Matrix4 { r0, r1, r2, r3 }
    }

    pub fn transpose(&self) -> (r: Self)
        ensures
            r == transpose_spec(*self),
    {
        Matrix4 {
            r0: Vector4 { x: self.r0.x, y: self.r1.x, z: self.r2.x, w: self.r3.x },
            r1: Vector4 { x: self.r0.y, y: self.r1.y, z: self.r2.y, w: self.r3.y },
            r2: Vector4 { x: self.r0.z, y: self.r1.z, z: self.r2.z, w: self.r3.z },
            r3: Vector4 { x: self.r0.w, y: self.r1.w, z: self.r2.w, w: self.r3.w },
        }
    }

    /// This matrix times the column vector `v`.
    pub fn mul_vec(&self, v: Vector4<V>) -> (r: Vector4<V>)
        ensures
            r == mul_vec_spec(*self, v),
    {
        Vector4 { x: self.r0.dot(v), y: self.r1.dot(v), z: self.r2.dot(v), w: self.r3.dot(v) }
    }
}

} // verus!
