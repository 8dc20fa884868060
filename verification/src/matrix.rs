//! A 4×4 matrix, stored row by row, applied to four-component vectors.

use vstd::prelude::*;
use core::ops::{Add, Mul};
use vstd::std_specs::ops::{AddSpec, MulSpec, MulSpecImpl};
use crate::vec::Vec4;

verus! {

/// A 4×4 matrix; the first four entries are the first row.
#[derive(Clone, Copy, Debug)]
pub struct Matrix4x4<T>(
    pub T, pub T, pub T, pub T,
    pub T, pub T, pub T, pub T,
    pub T, pub T, pub T, pub T,
    pub T, pub T, pub T, pub T,
);

/// One entry of a product: the row `(a, b, c, d)` times the vector `v`,
/// with the entry type's operators, summed left to right.
pub open spec fn row_times<T: Copy + Mul<Output = T> + Add<Output = T>>(a: T, b: T, c: T, d: T, v: Vec4<T>) -> T {
    a.mul_spec(v.x).add_spec(b.mul_spec(v.y)).add_spec(c.mul_spec(v.z)).add_spec(d.mul_spec(v.w))
}

/// The operations of one entry of a product are all defined (for integers:
/// no overflow).
pub open spec fn row_times_defined<T: Copy + Mul<Output = T> + Add<Output = T>>(a: T, b: T, c: T, d: T, v: Vec4<T>) -> bool {
    &&& a.mul_req(v.x) && b.mul_req(v.y) && c.mul_req(v.z) && d.mul_req(v.w)
    &&& a.mul_spec(v.x).add_req(b.mul_spec(v.y))
    &&& a.mul_spec(v.x).add_spec(b.mul_spec(v.y)).add_req(c.mul_spec(v.z))
    &&& a.mul_spec(v.x).add_spec(b.mul_spec(v.y)).add_spec(c.mul_spec(v.z)).add_req(d.mul_spec(v.w))
}

impl<T: Copy + Mul<Output = T> + Add<Output = T>> Mul<Vec4<T>> for Matrix4x4<T> {
    type Output = Vec4<T>;

    /// The matrix applied to `rhs`: each component is a row times `rhs`.
    fn mul(self, rhs: Vec4<T>) -> (r: Vec4<T>) {
        Vec4 {
            x: self.0 * rhs.x + self.1 * rhs.y + self.2 * rhs.z + self.3 * rhs.w,
            y: self.4 * rhs.x + self.5 * rhs.y + self.6 * rhs.z + self.7 * rhs.w,
            z: self.8 * rhs.x + self.9 * rhs.y + self.10 * rhs.z + self.11 * rhs.w,
            w: self.12 * rhs.x + self.13 * rhs.y + self.14 * rhs.z + self.15 * rhs.w,
        }
    }
}

impl<T: Copy + Mul<Output = T> + Add<Output = T>> MulSpecImpl<Vec4<T>> for Matrix4x4<T> {
    open spec fn obeys_mul_spec() -> bool {
        T::obeys_mul_spec() && T::obeys_add_spec()
    }

    open spec fn mul_req(self, rhs: Vec4<T>) -> bool {
        &&& T::obeys_mul_spec()
        &&& T::obeys_add_spec()
        &&& row_times_defined(self.0, self.1, self.2, self.3, rhs)
        &&& row_times_defined(self.4, self.5, self.6, self.7, rhs)
        &&& row_times_defined(self.8, self.9, self.10, self.11, rhs)
        &&& row_times_defined(self.12, self.13, self.14, self.15, rhs)
    }

    open spec fn mul_spec(self, rhs: Vec4<T>) -> Vec4<T> {
        Vec4 {
            x: row_times(self.0, self.1, self.2, self.3, rhs),
            y: row_times(self.4, self.5, self.6, self.7, rhs),
            z: row_times(self.8, self.9, self.10, self.11, rhs),
            w: row_times(self.12, self.13, self.14, self.15, rhs),
        }
    }
}

} // verus!
