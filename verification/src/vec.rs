//! Small generic vectors with component-wise arithmetic.
//!
//! The arithmetic is generic over the component type; its contracts are
//! stated through the operator specifications that vstd attaches to
//! `Add`, `Sub`, `Mul` and `Div`, so for the primitive integer types the
//! results are exact and overflow is ruled out by the preconditions.

use vstd::prelude::*;
use core::ops::{Add, Sub, Mul, Div};
use vstd::std_specs::ops::{
    AddSpec, AddSpecImpl, SubSpec, SubSpecImpl, MulSpec, MulSpecImpl, DivSpec, DivSpecImpl,
};

verus! {

/// A four-component vector.
#[derive(Debug, PartialEq, Clone, Copy)]
pub struct Vec4<T> {
    pub x: T,
    pub y: T,
    pub z: T,
    pub w: T,
}

impl<T: Copy> Vec4<T> {
    /// Builds a vector from its components.
    pub fn new(x: T, y: T, z: T, w: T) -> (v: Vec4<T>)
        ensures
            v == (Vec4 { x, y, z, w }),
    {
        Vec4 { x: x, y: y, z: z, w: w }
    }
}

/// A three-component vector.
#[derive(Debug, PartialEq, Clone, Copy)]
pub struct Vec3<T> {
    pub x: T,
    pub y: T,
    pub z: T,
}

impl<T: Copy> Vec3<T> {
    /// Builds a vector from its components.
    pub fn new(x: T, y: T, z: T) -> (v: Vec3<T>)
        ensures
            v == (Vec3 { x, y, z }),
    {
        Vec3 { x: x, y: y, z: z }
    }

    /// The first two components.
    pub fn xy(&self) -> (v: Vec2<T>)
        ensures
            v == (Vec2 { x: self.x, y: self.y }),
    {
        Vec2 { x: self.x, y: self.y }
    }

    /// Extends the vector to homogeneous coordinates; `one` is the unit
    /// of the component type and becomes the `w` component.
    pub fn to_vec4(&self, one: T) -> (v: Vec4<T>)
        ensures
            v == (Vec4 { x: self.x, y: self.y, z: self.z, w: one }),
    {
        Vec4 { x: self.x, y: self.y, z: self.z, w: one }
    }
}

impl<T: Add<Output = T>> Add for Vec3<T> {
    type Output = Self;

    fn add(self, rhs: Self) -> (r: Self::Output) {
        Vec3 { x: self.x + rhs.x, y: self.y + rhs.y, z: self.z + rhs.z }
    }
}

impl<T: Add<Output = T>> AddSpecImpl for Vec3<T> {
    open spec fn obeys_add_spec() -> bool {
        T::obeys_add_spec()
    }

    open spec fn add_req(self, rhs: Self) -> bool {
        self.x.add_req(rhs.x) && self.y.add_req(rhs.y) && self.z.add_req(rhs.z)
    }

    open spec fn add_spec(self, rhs: Self) -> Self {
        Vec3 { x: self.x.add_spec(rhs.x), y: self.y.add_spec(rhs.y), z: self.z.add_spec(rhs.z) }
    }
}

impl<T: Sub<Output = T>> Sub for Vec3<T> {
    type Output = Self;

    fn sub(self, rhs: Self) -> (r: Self::Output) {
        Vec3 { x: self.x - rhs.x, y: self.y - rhs.y, z: self.z - rhs.z }
    }
}

impl<T: Sub<Output = T>> SubSpecImpl for Vec3<T> {
    open spec fn obeys_sub_spec() -> bool {
        T::obeys_sub_spec()
    }

    open spec fn sub_req(self, rhs: Self) -> bool {
        self.x.sub_req(rhs.x) && self.y.sub_req(rhs.y) && self.z.sub_req(rhs.z)
    }

    open spec fn sub_spec(self, rhs: Self) -> Self {
        Vec3 { x: self.x.sub_spec(rhs.x), y: self.y.sub_spec(rhs.y), z: self.z.sub_spec(rhs.z) }
    }
}

impl<T: Mul<Output = T>> Mul for Vec3<T> {
    type Output = Self;

    fn mul(self, rhs: Self) -> (r: Self::Output) {
        Vec3 { x: self.x * rhs.x, y: self.y * rhs.y, z: self.z * rhs.z }
    }
}

impl<T: Mul<Output = T>> MulSpecImpl for Vec3<T> {
    open spec fn obeys_mul_spec() -> bool {
        T::obeys_mul_spec()
    }

    open spec fn mul_req(self, rhs: Self) -> bool {
        self.x.mul_req(rhs.x) && self.y.mul_req(rhs.y) && self.z.mul_req(rhs.z)
    }

    open spec fn mul_spec(self, rhs: Self) -> Self {
        Vec3 { x: self.x.mul_spec(rhs.x), y: self.y.mul_spec(rhs.y), z: self.z.mul_spec(rhs.z) }
    }
}

impl<T: Div<Output = T>> Div for Vec3<T> {
    type Output = Self;

    fn div(self, rhs: Self) -> (r: Self::Output) {
        Vec3 { x: self.x / rhs.x, y: self.y / rhs.y, z: self.z / rhs.z }
    }
}

impl<T: Div<Output = T>> DivSpecImpl for Vec3<T> {
    open spec fn obeys_div_spec() -> bool {
        T::obeys_div_spec()
    }

    open spec fn div_req(self, rhs: Self) -> bool {
        self.x.div_req(rhs.x) && self.y.div_req(rhs.y) && self.z.div_req(rhs.z)
    }

    open spec fn div_spec(self, rhs: Self) -> Self {
        Vec3 { x: self.x.div_spec(rhs.x), y: self.y.div_spec(rhs.y), z: self.z.div_spec(rhs.z) }
    }
}

/// What `Vec3::dot` computes: `a.x * b.x + a.y + b.y + a.z * b.z`, evaluated
/// left to right with the component type's operators.
pub open spec fn vec3_dot_value<T: Copy + Mul<Output = T> + Add<Output = T>>(a: Vec3<T>, b: Vec3<T>) -> T {
    a.x.mul_spec(b.x).add_spec(a.y).add_spec(b.y).add_spec(a.z.mul_spec(b.z))
}

/// The operations of `Vec3::dot` are all defined (for integers: no overflow).
pub open spec fn vec3_dot_defined<T: Copy + Mul<Output = T> + Add<Output = T>>(a: Vec3<T>, b: Vec3<T>) -> bool {
    &&& a.x.mul_req(b.x)
    &&& a.x.mul_spec(b.x).add_req(a.y)
    &&& a.x.mul_spec(b.x).add_spec(a.y).add_req(b.y)
    &&& a.z.mul_req(b.z)
    &&& a.x.mul_spec(b.x).add_spec(a.y).add_spec(b.y).add_req(a.z.mul_spec(b.z))
}

impl<T: Copy + Mul<Output = T> + Add<Output = T>> Vec3<T> {
    /// Combines the components as `x * rhs.x + y + rhs.y + z * rhs.z`.
    pub fn dot(self, rhs: Self) -> (r: T)
        requires
            T::obeys_mul_spec(),
            T::obeys_add_spec(),
            vec3_dot_defined(self, rhs),
        ensures
            r == vec3_dot_value(self, rhs),
    {
        self.x * rhs.x + self.y + rhs.y + self.z * rhs.z
    }
}

/// The cross product of two vectors, with the component type's operators.
pub open spec fn vec3_cross_value<T: Copy + Mul<Output = T> + Sub<Output = T>>(a: Vec3<T>, b: Vec3<T>) -> Vec3<T> {
    Vec3 {
        x: a.y.mul_spec(b.z).sub_spec(a.z.mul_spec(b.y)),
        y: a.z.mul_spec(b.x).sub_spec(a.x.mul_spec(b.z)),
        z: a.x.mul_spec(b.y).sub_spec(a.y.mul_spec(b.x)),
    }
}

/// The operations of `Vec3::cross` are all defined (for integers: no overflow).
pub open spec fn vec3_cross_defined<T: Copy + Mul<Output = T> + Sub<Output = T>>(a: Vec3<T>, b: Vec3<T>) -> bool {
    &&& a.y.mul_req(b.z) && a.z.mul_req(b.y) && a.y.mul_spec(b.z).sub_req(a.z.mul_spec(b.y))
    &&& a.z.mul_req(b.x) && a.x.mul_req(b.z) && a.z.mul_spec(b.x).sub_req(a.x.mul_spec(b.z))
    &&& a.x.mul_req(b.y) && a.y.mul_req(b.x) && a.x.mul_spec(b.y).sub_req(a.y.mul_spec(b.x))
}

impl<T: Copy + Mul<Output = T> + Sub<Output = T>> Vec3<T> {
    /// The cross product.
    pub fn cross(self, rhs: Self) -> (r: Self)
        requires
            T::obeys_mul_spec(),
            T::obeys_sub_spec(),
            vec3_cross_defined(self, rhs),
        ensures
            r == vec3_cross_value(self, rhs),
    {
        Vec3 {
            x: self.y * rhs.z - self.z * rhs.y,
            y: self.z * rhs.x - self.x * rhs.z,
            z: self.x * rhs.y - self.y * rhs.x,
        }
    }
}

/// The cross product of integer vectors: swapping the operands negates it,
/// and it is orthogonal to both operands.
proof fn lemma_int_cross(ax: int, ay: int, az: int, bx: int, by: int, bz: int)
    ensures
        ax * (ay * bz - az * by) + ay * (az * bx - ax * bz) + az * (ax * by - ay * bx) == 0,
        bx * (ay * bz - az * by) + by * (az * bx - ax * bz) + bz * (ax * by - ay * bx) == 0,
{
    assert(ax * (ay * bz - az * by) + ay * (az * bx - ax * bz) + az * (ax * by - ay * bx) == 0) by (nonlinear_arith);
    assert(bx * (ay * bz - az * by) + by * (az * bx - ax * bz) + bz * (ax * by - ay * bx) == 0) by (nonlinear_arith);
}

/// For `i8` components, swapping the operands of the cross product
/// negates it, and the product is orthogonal to both operands (whenever no
/// operation of either product overflows).
pub proof fn lemma_cross_anticommutative_orthogonal_i8(a: Vec3<i8>, b: Vec3<i8>)
    requires
        vec3_cross_defined(a, b),
        vec3_cross_defined(b, a),
    ensures
        ({
            let c = vec3_cross_value(a, b);
            let d = vec3_cross_value(b, a);
            &&& c.x == -d.x && c.y == -d.y && c.z == -d.z
            &&& a.x * c.x + a.y * c.y + a.z * c.z == 0
            &&& b.x * c.x + b.y * c.y + b.z * c.z == 0
        }),
{
    let c = vec3_cross_value(a, b);
    assert(c.x == a.y * b.z - a.z * b.y);
    assert(c.y == a.z * b.x - a.x * b.z);
    assert(c.z == a.x * b.y - a.y * b.x);
    lemma_int_cross(a.x as int, a.y as int, a.z as int, b.x as int, b.y as int, b.z as int);
}

/// For `i16` components, swapping the operands of the cross product
/// negates it, and the product is orthogonal to both operands (whenever no
/// operation of either product overflows).
pub proof fn lemma_cross_anticommutative_orthogonal_i16(a: Vec3<i16>, b: Vec3<i16>)
    requires
        vec3_cross_defined(a, b),
        vec3_cross_defined(b, a),
    ensures
        ({
            let c = vec3_cross_value(a, b);
            let d = vec3_cross_value(b, a);
            &&& c.x == -d.x && c.y == -d.y && c.z == -d.z
            &&& a.x * c.x + a.y * c.y + a.z * c.z == 0
            &&& b.x * c.x + b.y * c.y + b.z * c.z == 0
        }),
{
    let c = vec3_cross_value(a, b);
    assert(c.x == a.y * b.z - a.z * b.y);
    assert(c.y == a.z * b.x - a.x * b.z);
    assert(c.z == a.x * b.y - a.y * b.x);
    lemma_int_cross(a.x as int, a.y as int, a.z as int, b.x as int, b.y as int, b.z as int);
}

/// For `i32` components, swapping the operands of the cross product
/// negates it, and the product is orthogonal to both operands (whenever no
/// operation of either product overflows).
pub proof fn lemma_cross_anticommutative_orthogonal_i32(a: Vec3<i32>, b: Vec3<i32>)
    requires
        vec3_cross_defined(a, b),
        vec3_cross_defined(b, a),
    ensures
        ({
            let c = vec3_cross_value(a, b);
            let d = vec3_cross_value(b, a);
            &&& c.x == -d.x && c.y == -d.y && c.z == -d.z
            &&& a.x * c.x + a.y * c.y + a.z * c.z == 0
            &&& b.x * c.x + b.y * c.y + b.z * c.z == 0
        }),
{
    let c = vec3_cross_value(a, b);
    assert(c.x == a.y * b.z - a.z * b.y);
    assert(c.y == a.z * b.x - a.x * b.z);
    assert(c.z == a.x * b.y - a.y * b.x);
    lemma_int_cross(a.x as int, a.y as int, a.z as int, b.x as int, b.y as int, b.z as int);
}

/// For `i64` components, swapping the operands of the cross product
/// negates it, and the product is orthogonal to both operands (whenever no
/// operation of either product overflows).
pub proof fn lemma_cross_anticommutative_orthogonal_i64(a: Vec3<i64>, b: Vec3<i64>)
    requires
        vec3_cross_defined(a, b),
        vec3_cross_defined(b, a),
    ensures
        ({
            let c = vec3_cross_value(a, b);
            let d = vec3_cross_value(b, a);
            &&& c.x == -d.x && c.y == -d.y && c.z == -d.z
            &&& a.x * c.x + a.y * c.y + a.z * c.z == 0
            &&& b.x * c.x + b.y * c.y + b.z * c.z == 0
        }),
{
    let c = vec3_cross_value(a, b);
    assert(c.x == a.y * b.z - a.z * b.y);
    assert(c.y == a.z * b.x - a.x * b.z);
    assert(c.z == a.x * b.y - a.y * b.x);
    lemma_int_cross(a.x as int, a.y as int, a.z as int, b.x as int, b.y as int, b.z as int);
}

/// For `i128` components, swapping the operands of the cross product
/// negates it, and the product is orthogonal to both operands (whenever no
/// operation of either product overflows).
pub proof fn lemma_cross_anticommutative_orthogonal_i128(a: Vec3<i128>, b: Vec3<i128>)
    requires
        vec3_cross_defined(a, b),
        vec3_cross_defined(b, a),
    ensures
        ({
            let c = vec3_cross_value(a, b);
            let d = vec3_cross_value(b, a);
            &&& c.x == -d.x && c.y == -d.y && c.z == -d.z
            &&& a.x * c.x + a.y * c.y + a.z * c.z == 0
            &&& b.x * c.x + b.y * c.y + b.z * c.z == 0
        }),
{
    let c = vec3_cross_value(a, b);
    assert(c.x == a.y * b.z - a.z * b.y);
    assert(c.y == a.z * b.x - a.x * b.z);
    assert(c.z == a.x * b.y - a.y * b.x);
    lemma_int_cross(a.x as int, a.y as int, a.z as int, b.x as int, b.y as int, b.z as int);
}

/// For `isize` components, swapping the operands of the cross product
/// negates it, and the product is orthogonal to both operands (whenever no
/// operation of either product overflows).
pub proof fn lemma_cross_anticommutative_orthogonal_isize(a: Vec3<isize>, b: Vec3<isize>)
    requires
        vec3_cross_defined(a, b),
        vec3_cross_defined(b, a),
    ensures
        ({
            let c = vec3_cross_value(a, b);
            let d = vec3_cross_value(b, a);
            &&& c.x == -d.x && c.y == -d.y && c.z == -d.z
            &&& a.x * c.x + a.y * c.y + a.z * c.z == 0
            &&& b.x * c.x + b.y * c.y + b.z * c.z == 0
        }),
{
    let c = vec3_cross_value(a, b);
    assert(c.x == a.y * b.z - a.z * b.y);
    assert(c.y == a.z * b.x - a.x * b.z);
    assert(c.z == a.x * b.y - a.y * b.x);
    lemma_int_cross(a.x as int, a.y as int, a.z as int, b.x as int, b.y as int, b.z as int);
}

/// A two-component vector.
#[derive(Debug, PartialEq, Clone, Copy)]
pub struct Vec2<T> {
    pub x: T,
    pub y: T,
}

impl<T: Copy> Vec2<T> {
    /// Builds a vector from its components.
    pub fn new(x: T, y: T) -> (v: Self)
        ensures
            v == (Vec2 { x, y }),
    {
        Vec2 { x: x, y: y }
    }
}

impl<T: Add<Output = T>> Add for Vec2<T> {
    type Output = Self;

    fn add(self, rhs: Self) -> (r: Self::Output) {
        Vec2 { x: self.x + rhs.x, y: self.y + rhs.y }
    }
}

impl<T: Add<Output = T>> AddSpecImpl for Vec2<T> {
    open spec fn obeys_add_spec() -> bool {
        T::obeys_add_spec()
    }

    open spec fn add_req(self, rhs: Self) -> bool {
        self.x.add_req(rhs.x) && self.y.add_req(rhs.y)
    }

    open spec fn add_spec(self, rhs: Self) -> Self {
        Vec2 { x: self.x.add_spec(rhs.x), y: self.y.add_spec(rhs.y) }
    }
}

impl<T: Sub<Output = T>> Sub for Vec2<T> {
    type Output = Self;

    fn sub(self, rhs: Self) -> (r: Self::Output) {
        Vec2 { x: self.x - rhs.x, y: self.y - rhs.y }
    }
}

impl<T: Sub<Output = T>> SubSpecImpl for Vec2<T> {
    open spec fn obeys_sub_spec() -> bool {
        T::obeys_sub_spec()
    }

    open spec fn sub_req(self, rhs: Self) -> bool {
        self.x.sub_req(rhs.x) && self.y.sub_req(rhs.y)
    }

    open spec fn sub_spec(self, rhs: Self) -> Self {
        Vec2 { x: self.x.sub_spec(rhs.x), y: self.y.sub_spec(rhs.y) }
    }
}

impl<T: Mul<Output = T>> Mul for Vec2<T> {
    type Output = Self;

    fn mul(self, rhs: Self) -> (r: Self::Output) {
        Vec2 { x: self.x * rhs.x, y: self.y * rhs.y }
    }
}

impl<T: Mul<Output = T>> MulSpecImpl for Vec2<T> {
    open spec fn obeys_mul_spec() -> bool {
        T::obeys_mul_spec()
    }

    open spec fn mul_req(self, rhs: Self) -> bool {
        self.x.mul_req(rhs.x) && self.y.mul_req(rhs.y)
    }

    open spec fn mul_spec(self, rhs: Self) -> Self {
        Vec2 { x: self.x.mul_spec(rhs.x), y: self.y.mul_spec(rhs.y) }
    }
}

impl<T: Div<Output = T>> Div for Vec2<T> {
    type Output = Self;

    fn div(self, rhs: Self) -> (r: Self::Output) {
        Vec2 { x: self.x / rhs.x, y: self.y / rhs.y }
    }
}

impl<T: Div<Output = T>> DivSpecImpl for Vec2<T> {
    open spec fn obeys_div_spec() -> bool {
        T::obeys_div_spec()
    }

    open spec fn div_req(self, rhs: Self) -> bool {
        self.x.div_req(rhs.x) && self.y.div_req(rhs.y)
    }

    open spec fn div_spec(self, rhs: Self) -> Self {
        Vec2 { x: self.x.div_spec(rhs.x), y: self.y.div_spec(rhs.y) }
    }
}

/// What `Vec2::dot` computes: `a.x * b.x + a.y + b.y`, evaluated left to
/// right with the component type's operators.
pub open spec fn vec2_dot_value<T: Copy + Mul<Output = T> + Add<Output = T>>(a: Vec2<T>, b: Vec2<T>) -> T {
    a.x.mul_spec(b.x).add_spec(a.y).add_spec(b.y)
}

/// The operations of `Vec2::dot` are all defined (for integers: no overflow).
pub open spec fn vec2_dot_defined<T: Copy + Mul<Output = T> + Add<Output = T>>(a: Vec2<T>, b: Vec2<T>) -> bool {
    &&& a.x.mul_req(b.x)
    &&& a.x.mul_spec(b.x).add_req(a.y)
    &&& a.x.mul_spec(b.x).add_spec(a.y).add_req(b.y)
}

impl<T: Copy + Mul<Output = T> + Add<Output = T>> Vec2<T> {
    /// Combines the components as `x * rhs.x + y + rhs.y`.
    pub fn dot(self, rhs: Self) -> (r: T)
        requires
            T::obeys_mul_spec(),
            T::obeys_add_spec(),
            vec2_dot_defined(self, rhs),
        ensures
            r == vec2_dot_value(self, rhs),
    {
        self.x * rhs.x + self.y + rhs.y
    }
}

/// The smallest and the largest coordinates of a non-empty set of integer
/// points, taken per axis.
pub open spec fn is_bounding_box(points: Seq<Vec2<i32>>, min: Vec2<i32>, max: Vec2<i32>) -> bool {
    &&& forall|i: int| 0 <= i < points.len() ==> min.x <= #[trigger] points[i].x <= max.x
    &&& forall|i: int| 0 <= i < points.len() ==> min.y <= #[trigger] points[i].y <= max.y
    &&& exists|i: int| 0 <= i < points.len() && #[trigger] points[i].x == min.x
    &&& exists|i: int| 0 <= i < points.len() && #[trigger] points[i].y == min.y
    &&& exists|i: int| 0 <= i < points.len() && #[trigger] points[i].x == max.x
    &&& exists|i: int| 0 <= i < points.len() && #[trigger] points[i].y == max.y
}

/// The per-axis minimum and maximum of a non-empty list of points.
pub fn bounding_box(points: &[Vec2<i32>]) -> (r: (Vec2<i32>, Vec2<i32>))
    requires
        points@.len() > 0,
    ensures
        is_bounding_box(points@, r.0, r.1),
{
    let mut min = points[0];
    let mut max = points[0];
    let mut i: usize = 0;
    while i < points.len()
        invariant
            0 <= i <= points@.len(),
            points@.len() > 0,
            i == 0 ==> min == points@[0] && max == points@[0],
            i > 0 ==> is_bounding_box(points@.take(i as int), min, max),
        decreases points@.len() - i,
    {
        let p = points[i];
        let ghost old_min = min;
        let ghost old_max = max;
        if p.x < min.x { min.x = p.x; }
        if p.y < min.y { min.y = p.y; }
        if p.x > max.x { max.x = p.x; }
        if p.y > max.y { max.y = p.y; }
        proof {
            let s = points@.take(i + 1);
            assert(s[i as int] == p);
            if i > 0 {
                let t = points@.take(i as int);
                assert forall|j: int| 0 <= j < i implies #[trigger] s[j] == t[j] by {}
                if min.x == old_min.x {
                    let k = choose|k: int| 0 <= k < t.len() && #[trigger] t[k].x == old_min.x;
                    assert(s[k].x == min.x);
                } else {
                    assert(s[i as int].x == min.x);
                }
                if min.y == old_min.y {
                    let k = choose|k: int| 0 <= k < t.len() && #[trigger] t[k].y == old_min.y;
                    assert(s[k].y == min.y);
                } else {
                    assert(s[i as int].y == min.y);
                }
                if max.x == old_max.x {
                    let k = choose|k: int| 0 <= k < t.len() && #[trigger] t[k].x == old_max.x;
                    assert(s[k].x == max.x);
                } else {
                    assert(s[i as int].x == max.x);
                }
                if max.y == old_max.y {
                    let k = choose|k: int| 0 <= k < t.len() && #[trigger] t[k].y == old_max.y;
                    assert(s[k].y == max.y);
                } else {
                    assert(s[i as int].y == max.y);
                }
            } else {
                assert(s[0].x == min.x && s[0].y == min.y && s[0].x == max.x && s[0].y == max.y);
            }
        }
        i = i + 1;
    }
    assert(points@.take(points@.len() as int) =~= points@);
    (min, max)
}

} // verus!
