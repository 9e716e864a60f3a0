use rusterize::fixed::ONE;
use rusterize::geometry::{Point, Transform, Triangle};

fn pt(x: i64, y: i64, z: i64) -> Point {
    Point { x, y, z }
}

#[test]
fn point_add_and_sub() {
    let a = pt(ONE, 2 * ONE, 3 * ONE);
    let b = pt(4 * ONE, -5 * ONE, 6 * ONE);
    assert_eq!(a.add(b), pt(5 * ONE, -3 * ONE, 9 * ONE));
    assert_eq!(a.sub(b), pt(-3 * ONE, 7 * ONE, -3 * ONE));
}

#[test]
fn point_add_saturates() {
    let big = rusterize::fixed::COORD_MAX;
    let a = pt(big, 0, 0);
    assert_eq!(a.add(a).x, big);
}

#[test]
fn point_mul_scalar_half() {
    let a = pt(3 * ONE, -ONE, 0);
    assert_eq!(a.mul_scalar(ONE / 2), pt(3 * ONE / 2, -ONE / 2, 0));
}

#[test]
fn point_dot_product() {
    let a = pt(ONE, 2 * ONE, 3 * ONE);
    let b = pt(4 * ONE, 5 * ONE, 6 * ONE);
    assert_eq!(a.dot(b), 32 * ONE);
}

#[test]
fn point_cross_product() {
    let x = pt(ONE, 0, 0);
    let y = pt(0, ONE, 0);
    assert_eq!(x.cross(y), pt(0, 0, ONE));
    assert_eq!(y.cross(x), pt(0, 0, -ONE));
}

#[test]
fn point_magnitude_exact() {
    assert_eq!(pt(3 * ONE, 4 * ONE, 0).magnitude(), 5 * ONE);
    assert_eq!(pt(0, 0, 0).magnitude(), 0);
}

#[test]
fn point_magnitude_scales_with_scalar() {
    let p = pt(3 * ONE, 4 * ONE, 0);
    let s = -2 * ONE;
    let scaled = p.mul_scalar(s);
    assert_eq!(scaled.magnitude(), p.magnitude() * 2);
    let p = pt(ONE, ONE, ONE);
    let s = 3 * ONE;
    let lhs = p.mul_scalar(s).magnitude();
    let rhs = p.magnitude() * 3;
    assert!((lhs - rhs).abs() <= 4);
}

#[test]
fn point_normalized() {
    assert_eq!(pt(3 * ONE, 4 * ONE, 0).normalized(), pt(39321, 52428, 0));
    assert_eq!(pt(0, 0, 0).normalized(), pt(0, 0, 0));
}

#[test]
fn point_from_array_and_vec() {
    assert_eq!(Point::from_array([2 * ONE, 4 * ONE, 6 * ONE, 2 * ONE]), Some(pt(ONE, 2 * ONE, 3 * ONE)));
    assert_eq!(Point::from_array([ONE, ONE, ONE, 0]), None);
    assert_eq!(Point::from_vec(vec![ONE, 2 * ONE]), Some(pt(ONE, 2 * ONE, 0)));
    assert_eq!(Point::from_vec(vec![]), Some(pt(0, 0, 0)));
    assert_eq!(pt(ONE, 2, 3).to_array(), [ONE, 2, 3, ONE]);
}

#[test]
fn identity_leaves_point_unchanged() {
    let p = pt(7 * ONE, -3 * ONE + 5, 12345);
    assert_eq!(p.mul_transform(&Transform::identity()), Some(p));
}

#[test]
fn identity_is_two_sided_unit() {
    let t = Transform::translate(pt(ONE, 2 * ONE, 3 * ONE)).mul(&Transform::rotate_z(40000, 51000));
    let id = Transform::identity();
    assert_eq!(id.mul(&t).entries(), t.entries());
    assert_eq!(t.mul(&id).entries(), t.entries());
}

#[test]
fn translate_moves_point() {
    let p = pt(ONE, ONE, ONE);
    let t = Transform::translate(pt(2 * ONE, -ONE, 0));
    assert_eq!(p.mul_transform(&t), Some(pt(3 * ONE, 0, ONE)));
}

#[test]
fn scale_scales_point() {
    let p = pt(ONE, 2 * ONE, 3 * ONE);
    let t = Transform::scale(2 * ONE, ONE / 2, -ONE);
    assert_eq!(p.mul_transform(&t), Some(pt(2 * ONE, ONE, -3 * ONE)));
}

#[test]
fn rotate_z_quarter_turn() {
    let p = pt(ONE, 0, 0);
    let t = Transform::rotate_z(0, ONE);
    assert_eq!(p.mul_transform(&t), Some(pt(0, -ONE, 0)));
}

#[test]
fn perspective_divides_by_minus_z() {
    let p = pt(2 * ONE, 4 * ONE, -2 * ONE);
    assert_eq!(p.mul_transform(&Transform::perspective()), Some(pt(ONE, 2 * ONE, ONE)));
    let q = pt(ONE, ONE, 0);
    assert_eq!(q.mul_transform(&Transform::perspective()), None);
}

#[test]
fn composition_applies_right_first() {
    let p = pt(ONE, 0, 0);
    let t = Transform::translate(pt(ONE, 0, 0)).mul(&Transform::scale(3 * ONE, ONE, ONE));
    assert_eq!(p.mul_transform(&t), Some(pt(4 * ONE, 0, 0)));
    let u = Transform::scale(3 * ONE, ONE, ONE).mul(&Transform::translate(pt(ONE, 0, 0)));
    assert_eq!(p.mul_transform(&u), Some(pt(6 * ONE, 0, 0)));
}

#[test]
fn product_is_associative_within_tolerance() {
    let a = Transform::rotate_x(56756, 32768);
    let b = Transform::translate(pt(3 * ONE + 17, -ONE / 3, 2 * ONE));
    let c = Transform::scale(ONE / 3, 5 * ONE / 7, 2 * ONE);
    let l = a.mul(&b).mul(&c).entries();
    let r = a.mul(&b.mul(&c)).entries();
    let ae = a.entries();
    let ce = c.entries();
    for i in 0..4 {
        for j in 0..4 {
            let row: i64 = (0..4).map(|k| ae[4 * i + k].abs()).sum();
            let col: i64 = (0..4).map(|k| ce[4 * k + j].abs()).sum();
            assert!(ONE * (l[4 * i + j] - r[4 * i + j]).abs() <= row + col + ONE);
        }
    }
}

#[test]
fn triangle_normal_and_centroid() {
    let t = Triangle::new(pt(0, 0, -ONE), pt(ONE, 0, -ONE), pt(0, ONE, -ONE));
    assert_eq!(t.normal(), pt(0, 0, ONE));
    assert_eq!(t.centroid(), pt(21845, 21845, -65535));
    let r = Triangle::new(pt(0, 0, -ONE), pt(0, ONE, -ONE), pt(ONE, 0, -ONE));
    assert_eq!(r.normal(), pt(0, 0, -ONE));
}

#[test]
fn triangle_arrays_and_transform() {
    let t = Triangle::new(pt(1, 2, 3), pt(4, 5, 6), pt(7, 8, 9));
    assert_eq!(Triangle::from_arr(t.to_arr()), t);
    assert_eq!(t.to_tuple(), (pt(1, 2, 3), pt(4, 5, 6), pt(7, 8, 9)));
    let moved = t.mul_transform(&Transform::translate(pt(ONE, 0, 0))).unwrap();
    assert_eq!(moved.p1, pt(ONE + 1, 2, 3));
    let on_plane = Triangle::new(pt(ONE, 0, 0), pt(0, ONE, -ONE), pt(0, 0, -ONE));
    assert_eq!(on_plane.mul_transform(&Transform::perspective()), None);
}

#[test]
fn magnitude_fractional_scalar_within_tolerance() {
    for &(p, s) in &[
        (pt(ONE + 17, 2 * ONE - 5, 3 * ONE + 1234), 24248i64),
        (pt(-7 * ONE, 5, 11 * ONE / 3), -ONE / 7),
        (pt(3 * ONE, 4 * ONE, 0), ONE / 3),
    ] {
        let m1 = p.mul_scalar(s).magnitude() as i128;
        let m0 = p.magnitude() as i128;
        let one = ONE as i128;
        let sa = (s as i128).abs();
        assert!((one * m1 - m0 * sa).abs() < 3 * one + sa);
    }
}

fn neg(p: Point) -> Point {
    pt(-p.x, -p.y, -p.z)
}

#[test]
fn cross_is_anticommutative() {
    let cases = [
        (pt(0, 1, 0), pt(0, 0, 1)),
        (pt(3 * ONE + 7, -ONE / 3, 5), pt(-2 * ONE, ONE + 1, 17 * ONE / 7)),
    ];
    for &(a, b) in &cases {
        assert_eq!(b.cross(a), neg(a.cross(b)));
    }
    assert_eq!(pt(0, 1, 0).cross(pt(0, 0, 1)), pt(0, 0, 0));
}

#[test]
fn reversed_winding_negates_normal() {
    let cases = [
        (pt(0, 0, 0), pt(0, 1, 0), pt(0, 0, 1)),
        (pt(ONE / 3, 2 * ONE, -ONE), pt(5 * ONE + 3, -ONE / 7, ONE), pt(-ONE, ONE / 2, 3 * ONE)),
    ];
    for &(p1, p2, p3) in &cases {
        let n = Triangle::new(p1, p2, p3).normal();
        assert_eq!(Triangle::new(p1, p3, p2).normal(), neg(n));
    }
}

#[test]
fn normalized_short_vector_has_unit_length() {
    let n = pt(1, 1, 1).normalized();
    assert_eq!(n, pt(37837, 37837, 37837));
    let sq = (n.x as i128).pow(2) + (n.y as i128).pow(2) + (n.z as i128).pow(2);
    let one = ONE as i128;
    assert!(one * one - 6 * one - 3 < sq && sq < (one + 1) * (one + 1));
}

#[test]
fn small_triangle_has_unit_normal() {
    let t = Triangle::new(pt(0, 0, 0), pt(1, 0, 0), pt(0, 1, 0));
    assert_eq!(t.normal(), pt(0, 0, ONE));
    let r = Triangle::new(pt(0, 0, 0), pt(0, 1, 0), pt(0, 0, 1));
    assert_eq!(r.normal(), pt(ONE, 0, 0));
    let big = Triangle::new(pt(0, 0, 0), pt(1 << 46, 0, 0), pt(0, 1 << 46, 0));
    assert_eq!(big.normal(), pt(0, 0, ONE));
}
