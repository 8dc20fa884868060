use xp::vec::{bounding_box, Vec2, Vec3, Vec4};

#[test]
fn add_vec2() {
    assert_eq!(Vec2::<i32> { x: 1, y: 1 } + Vec2::<i32> { x: 2, y: 2 }, Vec2::<i32> { x: 3, y: 3 });
}

#[test]
fn sub_vec2() {
    assert_eq!(Vec2::<i32> { x: 1, y: 1 } - Vec2::<i32> { x: 2, y: 2 }, Vec2::<i32> { x: -1, y: -1 });
}

#[test]
fn mul_vec2() {
    assert_eq!(Vec2::<i32> { x: 1, y: 2 } * Vec2::<i32> { x: 2, y: 2 }, Vec2::<i32> { x: 2, y: 4 });
}

#[test]
fn div_vec2() {
    assert_eq!(Vec2::<i32> { x: 4, y: 2 } / Vec2::<i32> { x: 2, y: 2 }, Vec2::<i32> { x: 2, y: 1 });
}

#[test]
fn vec3_arithmetic_is_componentwise() {
    let a = Vec3::new(1i32, 2, 3);
    let b = Vec3::new(4i32, 5, 6);
    assert_eq!(a + b, Vec3::new(5, 7, 9));
    assert_eq!(b - a, Vec3::new(3, 3, 3));
    assert_eq!(a * b, Vec3::new(4, 10, 18));
    assert_eq!(b / a, Vec3::new(4, 2, 2));
}

#[test]
fn vec3_dot_adds_the_middle_components() {
    // x * x' + y + y' + z * z'
    assert_eq!(Vec3::new(1i32, 2, 3).dot(Vec3::new(4, 5, 6)), 4 + 2 + 5 + 18);
}

#[test]
fn vec2_dot_adds_the_second_components() {
    // x * x' + y + y'
    assert_eq!(Vec2::new(3i32, 4).dot(Vec2::new(5, 6)), 15 + 4 + 6);
}

#[test]
fn vec3_cross_product() {
    let x = Vec3::new(1i32, 0, 0);
    let y = Vec3::new(0i32, 1, 0);
    assert_eq!(x.cross(y), Vec3::new(0, 0, 1));
    assert_eq!(Vec3::new(2i32, 3, 4).cross(Vec3::new(5, 6, 7)), Vec3::new(-3, 6, -3));
}

#[test]
fn vec3_projections() {
    let v = Vec3::new(7i32, 8, 9);
    assert_eq!(v.xy(), Vec2::new(7, 8));
    assert_eq!(v.to_vec4(1), Vec4::new(7, 8, 9, 1));
}

#[test]
fn bounding_box_of_points() {
    let points = [Vec2::new(3i32, -1), Vec2::new(-2, 4), Vec2::new(0, 0)];
    assert_eq!(bounding_box(&points), (Vec2::new(-2, -1), Vec2::new(3, 4)));
    assert_eq!(bounding_box(&[Vec2::new(5i32, 6)]), (Vec2::new(5, 6), Vec2::new(5, 6)));
}

#[test]
fn cross_product_negates_when_swapped_and_is_orthogonal() {
    let a = Vec3::new(2i64, -3, 4);
    let b = Vec3::new(5i64, 6, -7);
    let c = a.cross(b);
    let d = b.cross(a);
    assert_eq!(c, Vec3::new(-d.x, -d.y, -d.z));
    assert_eq!(a.x * c.x + a.y * c.y + a.z * c.z, 0);
    assert_eq!(b.x * c.x + b.y * c.y + b.z * c.z, 0);
}
