use raycast::plane::Plane;
use raycast::quadratic::{discriminant, solve_quadratic};
use raycast::scalar::Scalar;
use raycast::triangle::{is_point_inside_triangle, largest_coordinate, triangle_normal};
use raycast::vec3::Vec3;

fn n(i: i32) -> Scalar {
    Scalar::from_int(i)
}

fn v(x: i32, y: i32, z: i32) -> Vec3 {
    Vec3::new(n(x), n(y), n(z))
}

fn raw3(x: i64, y: i64, z: i64) -> Vec3 {
    Vec3::new(Scalar::from_raw(x), Scalar::from_raw(y), Scalar::from_raw(z))
}

#[test]
fn vector_construction() {
    let a = Vec3::new(n(1), n(2), n(3));
    assert_eq!(a.x, n(1));
    assert_eq!(a.y, n(2));
    assert_eq!(a.z, n(3));
    assert_eq!(Vec3::zero(), v(0, 0, 0));
    assert_eq!(Vec3::default(), v(0, 0, 0));
}

#[test]
fn vector_sum_difference_negation() {
    assert_eq!(v(1, 2, 3).add(v(4, -5, 6)), v(5, -3, 9));
    assert_eq!(v(1, 2, 3).sub(v(4, -5, 6)), v(-3, 7, -3));
    assert_eq!(v(1, -2, 0).neg(), v(-1, 2, 0));
}

#[test]
fn vector_scaling() {
    assert_eq!(v(1, -2, 3).scale(n(4)), v(4, -8, 12));
    assert_eq!(v(1, -2, 3).scale(Scalar::from_ratio(1, 2)), raw3(1 << 23, -(1 << 24), 3 << 23));
}

#[test]
fn dot_and_cross_products() {
    assert_eq!(v(1, 2, 3).dot(&v(4, -5, 6)), n(12));
    assert_eq!(v(1, 2, 3).cross(&v(4, -5, 6)), v(27, 6, -13));
    assert_eq!(v(1, 0, 0).cross(&v(0, 1, 0)), v(0, 0, 1));
    assert_eq!(v(2, 3, 4).cross(&v(2, 3, 4)), v(0, 0, 0));
}

#[test]
fn lengths_and_distances() {
    assert_eq!(v(3, 4, 0).sqr_len(), n(25));
    assert_eq!(v(3, 4, 0).len(), n(5));
    assert_eq!(v(1, 1, 1).len().to_raw(), 29058990);
    assert_eq!(v(1, 2, 3).sqr_distance(&v(4, 6, 3)), n(25));
    assert_eq!(v(0, 0, 0).len(), n(0));
}

#[test]
fn normalization() {
    assert_eq!(v(0, 2, 0).normalized(), Some(v(0, 1, 0)));
    assert_eq!(v(3, 4, 0).normalized(), Some(raw3(10066329, 13421772, 0)));
    assert_eq!(v(0, 0, -7).normalized(), Some(v(0, 0, -1)));
}

#[test]
fn normalization_fails_near_zero() {
    assert_eq!(v(0, 0, 0).normalized(), None);
    assert_eq!(raw3(1, 0, 0).normalized(), None);
    assert_eq!(raw3(1, -1, 1).normalized(), None);
    assert_eq!(raw3(2, 0, 0).normalized(), Some(v(1, 0, 0)));
    assert_eq!(raw3(0, -2, 0).normalized(), Some(v(0, -1, 0)));
    assert_eq!(raw3(1, 1, 2).normalized(), Some(raw3(8388608, 8388608, 16777216)));
}

#[test]
fn short_vectors_keep_their_length() {
    assert_eq!(raw3(3, 4, 0).len(), Scalar::from_raw(5));
    assert_eq!(raw3(4095, 4095, 4095).len(), Scalar::from_raw(7092));
    assert_eq!(raw3(4095, 4095, 4095).sqr_len(), Scalar::from_raw(0));
    assert_eq!(
        raw3(4095, 4095, 4095).normalized(),
        Some(raw3(9687351, 9687351, 9687351))
    );
}

#[test]
fn length_saturates() {
    let far = Vec3::new(Scalar::max_value(), Scalar::min_value(), Scalar::max_value());
    assert_eq!(far.len(), Scalar::max_value());
    let long = Vec3::new(Scalar::min_value(), n(0), n(0));
    assert_eq!(long.len(), Scalar::max_value());
    let fits = Vec3::new(Scalar::from_raw(-i64::MAX), n(0), n(0));
    assert_eq!(fits.len(), Scalar::max_value());
}

#[test]
fn plane_from_normal_and_point_normalizes() {
    let plane = Plane::from_normal_and_point(&v(0, 0, 2), &v(5, 6, 1)).unwrap();
    assert_eq!(plane.normal, v(0, 0, 1));
    assert_eq!(plane.d, n(-1));
}

#[test]
fn plane_from_degenerate_normal_is_absent() {
    assert_eq!(Plane::from_normal_and_point(&v(0, 0, 0), &v(5, 6, 1)), None);
}

#[test]
fn plane_through_keeps_the_normal() {
    let plane = Plane::through(&v(0, -2, 0), &v(1, 3, 1));
    assert_eq!(plane.normal, v(0, -2, 0));
    assert_eq!(plane.d, n(6));
}

#[test]
fn discriminant_value() {
    assert_eq!(discriminant(n(1), n(-3), n(2)), n(1));
    assert_eq!(discriminant(n(1), n(2), n(1)), n(0));
    assert_eq!(discriminant(n(1), n(0), n(1)), n(-4));
}

#[test]
fn quadratic_with_two_roots() {
    assert_eq!(solve_quadratic(n(1), n(-3), n(2)), Some(vec![n(2), n(1)]));
    assert_eq!(solve_quadratic(n(2), n(1), n(-3)), Some(vec![n(1), Scalar::from_ratio(-3, 2)]));
}

#[test]
fn quadratic_with_one_root() {
    assert_eq!(solve_quadratic(n(1), n(2), n(1)), Some(vec![n(-1)]));
}

#[test]
fn quadratic_without_real_roots() {
    assert_eq!(solve_quadratic(n(1), n(0), n(1)), None);
}

#[test]
fn quadratic_with_zero_leading_coefficient() {
    assert_eq!(solve_quadratic(n(0), n(2), n(1)), Some(vec![]));
    assert_eq!(solve_quadratic(n(0), n(0), n(-1)), Some(vec![]));
    assert_eq!(solve_quadratic(n(0), n(0), n(1)), Some(vec![]));
}

fn sample_triangle() -> [Vec3; 3] {
    let h = Scalar::from_ratio(1, 2);
    [
        Vec3::new(n(0), h, n(0)),
        Vec3::new(h.neg(), h.neg(), n(0)),
        Vec3::new(h, h.neg(), n(0)),
    ]
}

#[test]
fn point_inside_triangle() {
    assert!(is_point_inside_triangle(&v(0, 0, 0), &sample_triangle()));
    let q = Scalar::from_ratio(1, 4);
    assert!(is_point_inside_triangle(&Vec3::new(q.neg(), q.neg(), n(0)), &sample_triangle()));
}

#[test]
fn point_outside_triangle() {
    assert!(!is_point_inside_triangle(&v(1, 0, 0), &sample_triangle()));
    assert!(!is_point_inside_triangle(&v(0, 1, 0), &sample_triangle()));
    assert!(!is_point_inside_triangle(&v(0, -1, 0), &sample_triangle()));
}

#[test]
fn triangle_without_area_holds_no_point() {
    let flat = [v(0, 0, 0), v(1, 0, 0), v(2, 0, 0)];
    assert!(!is_point_inside_triangle(&v(1, 0, 0), &flat));
    assert!(!is_point_inside_triangle(&v(0, 0, 0), &flat));
}

#[test]
fn first_vertex_is_inside_and_the_others_are_not() {
    let t = sample_triangle();
    assert!(is_point_inside_triangle(&t[0], &t));
    assert!(!is_point_inside_triangle(&t[1], &t));
    assert!(!is_point_inside_triangle(&t[2], &t));
    let skew = [v(1, 2, 3), Vec3::new(n(4), Scalar::from_ratio(-7, 3), n(1)), v(-2, 0, 5)];
    assert!(is_point_inside_triangle(&skew[0], &skew));
    assert!(!is_point_inside_triangle(&skew[1], &skew));
    assert!(!is_point_inside_triangle(&skew[2], &skew));
}

#[test]
fn plane_holds_the_point_it_goes_through() {
    let point = Vec3::new(Scalar::from_ratio(5, 3), n(-6), Scalar::from_ratio(1, 7));
    let normal = Vec3::new(n(1), Scalar::from_ratio(-2, 3), n(2));
    let plane = Plane::through(&normal, &point);
    assert_eq!(point.dot(&plane.normal).add(plane.d), n(0));
    let plane = Plane::from_normal_and_point(&normal, &point).unwrap();
    assert_eq!(point.dot(&plane.normal).add(plane.d), n(0));
}

#[test]
fn dot_product_does_not_depend_on_the_order() {
    let a = Vec3::new(Scalar::from_ratio(5, 3), n(-6), Scalar::from_ratio(1, 7));
    let b = Vec3::new(n(1), Scalar::from_ratio(-2, 3), n(2));
    assert_eq!(a.dot(&b), b.dot(&a));
    assert!(a.sqr_len() >= n(0));
}

#[test]
fn containment_does_not_depend_on_the_scale() {
    for scale in [1i64, 1 << 4, 1 << 12, 1 << 20, 1 << 28, 1 << 36] {
        let at = |x: i64, y: i64| raw3(x * scale, y * scale, 0);
        let t = [at(0, 0), at(8, 0), at(0, 8)];
        assert!(is_point_inside_triangle(&at(2, 2), &t));
        assert!(is_point_inside_triangle(&at(0, 0), &t));
        assert!(is_point_inside_triangle(&at(7, 0), &t));
        assert!(!is_point_inside_triangle(&at(4, 4), &t));
        assert!(!is_point_inside_triangle(&at(8, 0), &t));
        assert!(!is_point_inside_triangle(&at(-1, 2), &t));
        assert!(!is_point_inside_triangle(&at(9, 9), &t));
    }
}

#[test]
fn containment_at_the_ends_of_the_range() {
    let far = Scalar::max_value();
    let t = [v(0, 0, 0), Vec3::new(far, n(0), n(0)), Vec3::new(n(0), far, n(0))];
    assert!(is_point_inside_triangle(&v(1, 1, 0), &t));
    assert!(!is_point_inside_triangle(&Vec3::new(far, far, n(0)), &t));
    let unit = [v(0, 0, 0), v(1000000, 0, 0), v(0, 1000000, 0)];
    assert!(!is_point_inside_triangle(&Vec3::new(far, n(0), n(0)), &unit));
}

#[test]
fn normal_of_a_triangle_at_any_scale() {
    assert_eq!(largest_coordinate(&raw3(3, -9, 4)), 9);
    assert_eq!(largest_coordinate(&v(0, 0, 0)), 0);
    // Edges of eight units along x and y: rescaled to 2^31 raw units, their
    // cross product is 2^31 * 2^31 / 2^24 = 2^38 along z.
    for scale in [1i64, 1 << 10, 1 << 24, 1 << 40] {
        let t = [raw3(0, 0, 0), raw3(8 * scale, 0, 0), raw3(0, 8 * scale, 0)];
        assert_eq!(triangle_normal(&t), raw3(0, 0, 1 << 38));
        let back = [t[0], t[2], t[1]];
        assert_eq!(triangle_normal(&back), raw3(0, 0, -(1 << 38)));
    }
    let flat = [raw3(0, 0, 0), raw3(5, 0, 0), raw3(10, 0, 0)];
    assert_eq!(triangle_normal(&flat), raw3(0, 0, 0));
}
