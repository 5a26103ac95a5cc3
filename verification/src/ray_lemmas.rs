//! What holds of the intersection routines for every ray and every solid.
use crate::fixed::{
    fx_sub, lemma_fx_div_antitone, lemma_fx_div_at_least_one, lemma_fx_div_error,
    lemma_fx_div_monotone, lemma_fx_div_sign, lemma_fx_mul_commutes, lemma_fx_mul_unit,
    lemma_scaled_back_lower, lemma_scaled_back_upper, lemma_scaled_forth,
    lemma_trunc_div_neg_divisor, lemma_trunc_div_remainder, magnitude, rounding_slack, trunc_div,
    MAX_RAW, MIN_RAW, ONE_RAW,
};
use crate::interval::IntersectionResult;
use crate::plane::Plane;
use crate::quadratic::{
    lemma_quadratic_residual, quadratic_residual, quadratic_tolerance, solves_in_range,
    spec_discriminant, spec_solve_quadratic,
};
use crate::ray::{spec_slab, CylinderKind, Ray};
use crate::scalar::Scalar;
use crate::triangle::{
    larger, lemma_rescale_zero, spec_is_point_inside_triangle, spec_largest_coordinate,
    spec_largest_of_three, spec_rescale, spec_triangle_normal,
};
use crate::vec3::Vec3;
use vstd::prelude::*;

verus! {

/// Along one axis, the segment from `origin` to `origin + dir` lies wholly
/// on one side of the bounds `lo` and `hi`, outside them.
pub open spec fn segment_outside(lo: Scalar, hi: Scalar, origin: Scalar, dir: Scalar) -> bool {
    (origin@ < lo@ && origin@ + dir@ < lo@) || (origin@ > hi@ && origin@ + dir@ > hi@)
}

/// The two ways of asking whether a ray meets a sphere agree: the quick
/// test says yes exactly when the intersection is present.
pub proof fn lemma_sphere_tests_agree(ray: Ray, position: Vec3, radius: Scalar)
    ensures
        ray.spec_is_intersect_sphere(position, radius) == ray.spec_sphere_intersection(
            &position,
            radius,
        ).is_some(),
{
}

/// Between bounds in their order, the interval of one axis is in its order
/// too.
pub proof fn lemma_slab_ordered(lo: Scalar, hi: Scalar, origin: Scalar, dir: Scalar)
    requires
        lo@ <= hi@,
    ensures
        spec_slab(lo, hi, origin, dir) matches Some(s) ==> s.is_ordered(),
{
    if dir@ > 0 {
        lemma_fx_div_monotone(fx_sub(lo@, origin@), fx_sub(hi@, origin@), dir@);
    } else if dir@ < 0 {
        lemma_fx_div_antitone(fx_sub(lo@, origin@), fx_sub(hi@, origin@), dir@);
    }
}

/// Where the segment lies outside the bounds of one axis, the interval of
/// that axis is absent, or begins no earlier than the segment's end, or
/// ends no later than the segment's beginning.
pub proof fn lemma_slab_misses(lo: Scalar, hi: Scalar, origin: Scalar, dir: Scalar)
    requires
        segment_outside(lo, hi, origin, dir),
    ensures
        spec_slab(lo, hi, origin, dir) matches Some(s) ==> s.min@ >= Scalar::one()@ || s.max@ <= 0,
{
    if origin@ < lo@ && origin@ + dir@ < lo@ {
        if dir@ > 0 {
            lemma_fx_div_at_least_one(fx_sub(lo@, origin@), dir@);
        } else if dir@ < 0 {
            lemma_fx_div_sign(fx_sub(lo@, origin@), dir@);
        }
    } else {
        if dir@ > 0 {
            lemma_fx_div_sign(fx_sub(hi@, origin@), dir@);
        } else if dir@ < 0 {
            lemma_fx_div_at_least_one(fx_sub(hi@, origin@), dir@);
        }
    }
}

/// A segment that lies wholly outside the box along one of the axes does
/// not intersect the box.
pub proof fn lemma_box_miss(ray: Ray, min: Vec3, max: Vec3)
    requires
        segment_outside(min.x, max.x, ray.origin.x, ray.dir.x) || segment_outside(
            min.y,
            max.y,
            ray.origin.y,
            ray.dir.y,
        ) || segment_outside(min.z, max.z, ray.origin.z, ray.dir.z),
    ensures
        ray.spec_box_intersection(&min, &max) is None,
{
    if segment_outside(min.x, max.x, ray.origin.x, ray.dir.x) {
        lemma_slab_misses(min.x, max.x, ray.origin.x, ray.dir.x);
    }
    if segment_outside(min.y, max.y, ray.origin.y, ray.dir.y) {
        lemma_slab_misses(min.y, max.y, ray.origin.y, ray.dir.y);
    }
    if segment_outside(min.z, max.z, ray.origin.z, ray.dir.z) {
        lemma_slab_misses(min.z, max.z, ray.origin.z, ray.dir.z);
    }
}

/// An intersection with a box reaches into the segment: it begins before
/// the parameter one and ends after zero. Where the corners of the box are
/// in their order along every axis, its ends are in their order too.
pub proof fn lemma_box_hit(ray: Ray, min: Vec3, max: Vec3)
    requires
        ray.spec_box_intersection(&min, &max) is Some,
    ensures
        ray.spec_box_intersection(&min, &max).unwrap().min@ < Scalar::one()@,
        ray.spec_box_intersection(&min, &max).unwrap().max@ > 0,
        min.x@ <= max.x@ && min.y@ <= max.y@ && min.z@ <= max.z@ ==> ray.spec_box_intersection(
            &min,
            &max,
        ).unwrap().is_ordered(),
{
    if min.x@ <= max.x@ && min.y@ <= max.y@ && min.z@ <= max.z@ {
        lemma_slab_ordered(min.x, max.x, ray.origin.x, ray.dir.x);
        lemma_slab_ordered(min.y, max.y, ray.origin.y, ray.dir.y);
        lemma_slab_ordered(min.z, max.z, ray.origin.z, ray.dir.z);
    }
}

/// The interval of a sphere's intersection is in its order, unless the ray
/// has no direction: then it is the empty interval.
pub proof fn lemma_sphere_interval(ray: Ray, position: Vec3, radius: Scalar)
    requires
        ray.spec_sphere_intersection(&position, radius) is Some,
    ensures
        ray.dir.sqr_len()@ != 0 ==> ray.spec_sphere_intersection(
            &position,
            radius,
        ).unwrap().is_ordered(),
        ray.dir.sqr_len()@ == 0 ==> ray.spec_sphere_intersection(&position, radius).unwrap()
            == IntersectionResult::empty(),
{
    reveal(Ray::spec_sphere_equation);
    let (a, b, c) = ray.spec_sphere_equation(&position, radius);
    let roots = spec_solve_quadratic(a, b, c).unwrap();
    if a@ != 0 {
        IntersectionResult::lemma_from_slice(roots);
    }
}

/// An unbounded cylinder and a capped one are intersected by the same
/// rays, and the capped interval reaches at least as far both ways.
pub proof fn lemma_capped_encloses_infinite(ray: Ray, pa: Vec3, pb: Vec3, r: Scalar)
    ensures
        ray.spec_cylinder_intersection(&pa, &pb, r, CylinderKind::Infinite) is Some
            <==> ray.spec_cylinder_intersection(&pa, &pb, r, CylinderKind::Capped) is Some,
        ray.spec_cylinder_intersection(&pa, &pb, r, CylinderKind::Infinite) matches Some(i) ==> {
            let c = ray.spec_cylinder_intersection(&pa, &pb, r, CylinderKind::Capped).unwrap();
            c.min@ <= i.min@ && i.max@ <= c.max@
        },
{
}

/// A ray that intersects a cylinder without caps intersects the unbounded
/// one, and within the interval of the unbounded one: the finite interval
/// is in its order and enclosed.
pub proof fn lemma_finite_within_infinite(ray: Ray, pa: Vec3, pb: Vec3, r: Scalar)
    requires
        ray.spec_cylinder_intersection(&pa, &pb, r, CylinderKind::Finite) is Some,
    ensures
        ray.spec_cylinder_intersection(&pa, &pb, r, CylinderKind::Infinite) is Some,
        ray.spec_cylinder_intersection(&pa, &pb, r, CylinderKind::Finite).unwrap().is_ordered(),
        ray.spec_cylinder_intersection(&pa, &pb, r, CylinderKind::Infinite).unwrap().encloses(
            ray.spec_cylinder_intersection(&pa, &pb, r, CylinderKind::Finite).unwrap(),
        ),
{
    let va = Ray::spec_cylinder_axis(&pa, &pb);
    let (a, b, c) = ray.spec_cylinder_equation(&pa, &va, r);
    let roots = spec_solve_quadratic(a, b, c).unwrap();
    let keep = |t: Scalar| ray.spec_between_ends(&pa, &pb, &va, t);
    let kept = roots.filter(keep);
    roots.lemma_filter_len(keep);
    IntersectionResult::lemma_from_slice(kept);
    IntersectionResult::lemma_from_slice(roots);
    let f = IntersectionResult::spec_from_slice(kept);
    roots.lemma_filter_contains_rev(keep, f.min);
    roots.lemma_filter_contains_rev(keep, f.max);
}

/// A capsule whose two ends coincide is the sphere about that point: the
/// two queries give the same points, for every ray and every radius.
pub proof fn lemma_capsule_of_one_point(ray: Ray, p: Vec3, radius: Scalar)
    ensures
        ray.spec_capsule_intersection(&p, &p, radius) == ray.spec_sphere_intersection_points(
            &p,
            radius,
        ),
{
    let side = ray.spec_capsule_side(&p, &p, radius);
    let sphere = ray.spec_sphere_intersection(&p, radius);
    let parts = seq![side, sphere, sphere];
    let two = parts.drop_last();
    let one = two.drop_last();
    let between = p.sub(p);
    assert(between == Vec3::zero());
    assert(between.x@ == 0 && between.y@ == 0 && between.z@ == 0);
    assert(between.x@ * between.x@ + between.y@ * between.y@ + between.z@ * between.z@ == 0)
        by (nonlinear_arith)
        requires
            between.x@ == 0 && between.y@ == 0 && between.z@ == 0,
    ;
    assert(side is None);
    assert(IntersectionResult::spec_from_set(one.drop_last()) is None);
    assert(IntersectionResult::spec_from_set(one) is None);
    assert(IntersectionResult::spec_from_set(two) == sphere);
    if let Some(s) = sphere {
        // Joining the sphere's interval to itself leaves it as it is, or
        // turns the empty interval into one that has no end on the segment
        // either.
        lemma_sphere_interval(ray, p, radius);
        if ray.dir.sqr_len()@ != 0 {
            s.lemma_join_enclosing(s);
        }
    }
}

/// Two points give a ray exactly when they are at least 2^-23 apart.
pub proof fn lemma_from_two_points_present(begin: Vec3, end: Vec3)
    ensures
        Ray::spec_from_two_points(&begin, &end) is Some <==> end.sub(begin).is_distinct_from_zero(),
{
    end.sub(begin).lemma_normalized_present();
}

/// The ray from one point to another begins at the first, at the
/// parameter zero, and reaches the second at the parameter one, as long as
/// the difference of the two points is in range along every axis.
pub proof fn lemma_ray_ends(begin: Vec3, end: Vec3)
    requires
        Ray::spec_from_two_points(&begin, &end) is Some,
        MIN_RAW <= end.x@ - begin.x@ <= MAX_RAW,
        MIN_RAW <= end.y@ - begin.y@ <= MAX_RAW,
        MIN_RAW <= end.z@ - begin.z@ <= MAX_RAW,
    ensures
        Ray::spec_from_two_points(&begin, &end).unwrap().get_point(Scalar::zero()) == begin,
        Ray::spec_from_two_points(&begin, &end).unwrap().get_point(Scalar::one()) == end,
{
    let dir = end.sub(begin);
    lemma_fx_mul_unit(dir.x@);
    lemma_fx_mul_unit(dir.y@);
    lemma_fx_mul_unit(dir.z@);
}

/// The points that `try_eval_points` gives lie on the segment: each is the
/// ray's point at an end of the interval, and that end is a parameter from
/// zero to one. No points are given exactly when neither end is such a
/// parameter.
pub proof fn lemma_points_on_segment(ray: Ray, result: IntersectionResult)
    ensures
        ray.spec_try_eval_points(Some(result)) matches Some(points) ==> {
            &&& (points[0] == ray.get_point(result.min) && 0 <= result.min@ <= Scalar::one()@)
                || (points[0] == ray.get_point(result.max) && 0 <= result.max@ <= Scalar::one()@)
            &&& (points[1] == ray.get_point(result.min) && 0 <= result.min@ <= Scalar::one()@)
                || (points[1] == ray.get_point(result.max) && 0 <= result.max@ <= Scalar::one()@)
        },
        ray.spec_try_eval_points(Some(result)) is None <==> !(0 <= result.min@ <= Scalar::one()@)
            && !(0 <= result.max@ <= Scalar::one()@),
{
}

/// Along one axis, a parameter of the axis's interval gives a coordinate
/// between the bounds, up to rounding. The interval must reach into the
/// segment: begin before the parameter one and end after zero.
pub proof fn lemma_slab_sound(lo: Scalar, hi: Scalar, origin: Scalar, dir: Scalar, t: Scalar)
    requires
        spec_slab(lo, hi, origin, dir) matches Some(s) && s.contains(t) && s.min@ < ONE_RAW
            && s.max@ > 0,
    ensures
        lo@ - rounding_slack(dir@) <= origin.add(dir.mul(t))@ <= hi@ + rounding_slack(dir@),
{
    let o = origin@;
    let d = dir@;
    let n = fx_sub(lo@, o);
    let m = fx_sub(hi@, o);
    if d > 0 {
        if lo@ - o > MAX_RAW {
            lemma_fx_div_at_least_one(MAX_RAW as int, d);
        } else if lo@ - o >= MIN_RAW {
            lemma_scaled_back_lower(n, d, t@);
        }
        if hi@ - o < MIN_RAW {
            lemma_fx_div_sign(MIN_RAW as int, d);
        } else if hi@ - o <= MAX_RAW {
            lemma_scaled_back_upper(m, d, t@);
        }
    } else if d < 0 {
        let e = -d;
        assert(e * (-t@) == d * t@) by (nonlinear_arith)
            requires
                e == -d,
        ;
        if lo@ - o > MAX_RAW {
            lemma_fx_div_sign(MAX_RAW as int, d);
        } else if lo@ - o >= MIN_RAW {
            lemma_trunc_div_neg_divisor(n * ONE_RAW, e);
            lemma_scaled_back_lower(n, e, -t@);
        }
        if hi@ - o < MIN_RAW {
            lemma_fx_div_at_least_one(MIN_RAW as int, d);
        } else if hi@ - o <= MAX_RAW {
            lemma_trunc_div_neg_divisor(m * ONE_RAW, e);
            lemma_scaled_back_upper(m, e, -t@);
        }
    }
}

/// Every parameter of a box intersection gives a point of the ray inside
/// the box, up to rounding: along each axis the point lies between the
/// corners, widened by the size of the ray's direction along that axis in
/// whole units and two raw units more.
pub proof fn lemma_box_sound(ray: Ray, min: Vec3, max: Vec3, t: Scalar)
    requires
        ray.spec_box_intersection(&min, &max) matches Some(hit) && hit.contains(t),
    ensures
        min.x@ - rounding_slack(ray.dir.x@) <= ray.get_point(t).x@ <= max.x@ + rounding_slack(
            ray.dir.x@,
        ),
        min.y@ - rounding_slack(ray.dir.y@) <= ray.get_point(t).y@ <= max.y@ + rounding_slack(
            ray.dir.y@,
        ),
        min.z@ - rounding_slack(ray.dir.z@) <= ray.get_point(t).z@ <= max.z@ + rounding_slack(
            ray.dir.z@,
        ),
{
    lemma_slab_sound(min.x, max.x, ray.origin.x, ray.dir.x, t);
    lemma_slab_sound(min.y, max.y, ray.origin.y, ray.dir.y, t);
    lemma_slab_sound(min.z, max.z, ray.origin.z, ray.dir.z, t);
}

/// Along one axis, a parameter of the segment that gives a coordinate
/// inside the bounds by a raw unit belongs to the axis's interval.
pub proof fn lemma_slab_complete(lo: Scalar, hi: Scalar, origin: Scalar, dir: Scalar, t: Scalar)
    requires
        0 <= t@ <= ONE_RAW,
        lo@ + 1 <= origin.add(dir.mul(t))@ <= hi@ - 1,
    ensures
        spec_slab(lo, hi, origin, dir) matches Some(s) && s.contains(t),
{
    let o = origin@;
    let d = dir@;
    let n = fx_sub(lo@, o);
    let m = fx_sub(hi@, o);
    let p = trunc_div(d * t@, ONE_RAW as int);
    lemma_trunc_div_remainder(d * t@, ONE_RAW as int);
    assert(magnitude(d * t@) <= magnitude(d) * ONE_RAW) by (nonlinear_arith)
        requires
            0 <= t@ <= ONE_RAW,
    ;
    if d > 0 {
        if n > MIN_RAW {
            lemma_scaled_forth(n, p + 1, d, t@);
        } else {
            lemma_fx_div_sign(n, d);
        }
        if m < MAX_RAW {
            lemma_scaled_forth(p - 1, m, d, t@);
        } else {
            lemma_fx_div_at_least_one(m, d);
        }
    } else if d < 0 {
        let e = -d;
        assert(e * (-t@) == d * t@) by (nonlinear_arith)
            requires
                e == -d,
        ;
        if n > MIN_RAW {
            lemma_trunc_div_neg_divisor(n * ONE_RAW, e);
            lemma_scaled_forth(n, p + 1, e, -t@);
        } else {
            lemma_fx_div_at_least_one(n, d);
        }
        if m < MAX_RAW {
            lemma_trunc_div_neg_divisor(m * ONE_RAW, e);
            lemma_scaled_forth(p - 1, m, e, -t@);
        } else {
            lemma_fx_div_sign(m, d);
        }
    }
}

/// A point of the segment that lies inside the box by a raw unit along
/// every axis is found: the box intersection is present and holds the
/// point's parameter. This holds of the parameters strictly between zero
/// and one.
pub proof fn lemma_box_complete(ray: Ray, min: Vec3, max: Vec3, t: Scalar)
    requires
        0 < t@ < ONE_RAW,
        min.x@ + 1 <= ray.get_point(t).x@ <= max.x@ - 1,
        min.y@ + 1 <= ray.get_point(t).y@ <= max.y@ - 1,
        min.z@ + 1 <= ray.get_point(t).z@ <= max.z@ - 1,
    ensures
        ray.spec_box_intersection(&min, &max) matches Some(hit) && hit.contains(t),
{
    lemma_slab_complete(min.x, max.x, ray.origin.x, ray.dir.x, t);
    lemma_slab_complete(min.y, max.y, ray.origin.y, ray.dir.y, t);
    lemma_slab_complete(min.z, max.z, ray.origin.z, ray.dir.z, t);
}

/// The parameter of a plane crossing solves the plane's equation along the
/// ray, up to the rounding of one division. With `s` the value of
/// `dot(origin, n) + d` and `v` that of `dot(dir, n)`, as the library
/// computes them, `s + t * v` vanishes: taken in raw units, `s` times one
/// and `t` times `v` cancel but for less than the size of `v`. This holds
/// where the ray is not along the plane and no step saturates.
pub proof fn lemma_plane_parameter(ray: Ray, plane: Plane)
    requires
        ray.dir.dot(&plane.normal)@ != 0,
        MIN_RAW < ray.origin.dot(&plane.normal)@ + plane.d@ <= MAX_RAW,
        MIN_RAW < ray.plane_intersection(&plane)@ < MAX_RAW,
    ensures
        ({
            let s = ray.origin.dot(&plane.normal).add(plane.d)@;
            let v = ray.dir.dot(&plane.normal)@;
            let t = ray.plane_intersection(&plane)@;
            magnitude(s * ONE_RAW + t * v) < magnitude(v)
        }),
{
    let s = ray.origin.dot(&plane.normal).add(plane.d)@;
    let v = ray.dir.dot(&plane.normal)@;
    lemma_fx_div_error(-s, v);
}

/// The parameter of a projection solves the equation of the nearest point,
/// up to the rounding of one division. With `w` the value of
/// `dot(point - origin, dir)` and `l` the squared length of `dir`, as the
/// library computes them, `t * l` equals `w`: taken in raw units, `t` times
/// `l` and `w` times one differ by less than `l`. This holds where the ray
/// has a direction and the quotient does not saturate.
pub proof fn lemma_projection_parameter(ray: Ray, point: Vec3)
    requires
        ray.dir.sqr_len()@ != 0,
        MIN_RAW < ray.project_point(point)@ < MAX_RAW,
    ensures
        ({
            let w = point.sub(ray.origin).dot(&ray.dir)@;
            let l = ray.dir.sqr_len()@;
            let t = ray.project_point(point)@;
            magnitude(w * ONE_RAW - t * l) < l
        }),
{
    let w = point.sub(ray.origin).dot(&ray.dir)@;
    let l = ray.dir.sqr_len()@;
    ray.dir.lemma_sqr_len();
    lemma_fx_div_error(w, l);
}

/// A triangle of which two vertices coincide holds no point, and no ray
/// intersects it.
pub proof fn lemma_collapsed_triangle(ray: Ray, point: Vec3, vertices: [Vec3; 3])
    requires
        vertices[0] == vertices[1] || vertices[0] == vertices[2] || vertices[1] == vertices[2],
    ensures
        !spec_is_point_inside_triangle(&point, &vertices),
        ray.spec_triangle_intersection(&vertices) is None,
{
    let ba = vertices[1].sub(vertices[0]);
    let ca = vertices[2].sub(vertices[0]);
    // The plane: the cross product of the edges has no length.
    let k = larger(spec_largest_coordinate(&ba), spec_largest_coordinate(&ca));
    let nb = spec_rescale(&ba, k);
    let nc = spec_rescale(&ca, k);
    lemma_rescale_zero(k);
    lemma_fx_mul_commutes(nb.x@, nc.y@);
    lemma_fx_mul_commutes(nb.y@, nc.z@);
    lemma_fx_mul_commutes(nb.z@, nc.x@);
    lemma_fx_mul_unit(nb.x@);
    lemma_fx_mul_unit(nb.y@);
    lemma_fx_mul_unit(nb.z@);
    lemma_fx_mul_unit(nc.x@);
    lemma_fx_mul_unit(nc.y@);
    lemma_fx_mul_unit(nc.z@);
    assert(spec_triangle_normal(&vertices) == Vec3::zero());
    Vec3::zero().lemma_normalized_present();
    // The containment test: its denominator is zero.
    let m = spec_largest_of_three(&ba, &ca, &point.sub(vertices[0]));
    let sb = spec_rescale(&ba, m);
    let sc = spec_rescale(&ca, m);
    lemma_rescale_zero(m);
    lemma_fx_mul_unit(sb.x@);
    lemma_fx_mul_unit(sb.y@);
    lemma_fx_mul_unit(sb.z@);
    lemma_fx_mul_unit(sc.x@);
    lemma_fx_mul_unit(sc.y@);
    lemma_fx_mul_unit(sc.z@);
    lemma_fx_mul_unit(sb.dot(&sb)@);
    lemma_fx_mul_unit(sc.dot(&sc)@);
}

/// Along one axis, the ray's point at the parameter `t` lies in the plane
/// through which a ray of this direction enters the bounds, up to
/// rounding.
pub open spec fn on_near_face(lo: Scalar, hi: Scalar, origin: Scalar, dir: Scalar, t: Scalar) -> bool {
    dir@ != 0 && magnitude(
        origin.add(dir.mul(t))@ - (if dir@ > 0 {
            lo@
        } else {
            hi@
        }),
    ) <= rounding_slack(dir@)
}

/// Along one axis, the ray's point at the parameter `t` lies in the plane
/// through which a ray of this direction leaves the bounds, up to
/// rounding.
pub open spec fn on_far_face(lo: Scalar, hi: Scalar, origin: Scalar, dir: Scalar, t: Scalar) -> bool {
    dir@ != 0 && magnitude(
        origin.add(dir.mul(t))@ - (if dir@ > 0 {
            hi@
        } else {
            lo@
        }),
    ) <= rounding_slack(dir@)
}

/// The difference of the two numbers is in range: subtracting them does
/// not saturate.
pub open spec fn difference_fits(a: Scalar, b: Scalar) -> bool {
    MIN_RAW <= a@ - b@ <= MAX_RAW
}

/// The corner is near enough to the origin of the ray that their
/// difference is in range along every axis.
pub open spec fn corner_in_reach(corner: Vec3, origin: Vec3) -> bool {
    difference_fits(corner.x, origin.x) && difference_fits(corner.y, origin.y) && difference_fits(
        corner.z,
        origin.z,
    )
}

/// Along an axis on which the ray advances, the ends of the axis's
/// interval give points in the two bounding planes, up to rounding. An end
/// that a saturated quotient has left at an infinity is excepted.
pub proof fn lemma_slab_ends(lo: Scalar, hi: Scalar, origin: Scalar, dir: Scalar)
    requires
        difference_fits(lo, origin),
        difference_fits(hi, origin),
        dir@ != 0,
    ensures
        MIN_RAW < spec_slab(lo, hi, origin, dir).unwrap().min@ < MAX_RAW ==> on_near_face(
            lo,
            hi,
            origin,
            dir,
            spec_slab(lo, hi, origin, dir).unwrap().min,
        ),
        MIN_RAW < spec_slab(lo, hi, origin, dir).unwrap().max@ < MAX_RAW ==> on_far_face(
            lo,
            hi,
            origin,
            dir,
            spec_slab(lo, hi, origin, dir).unwrap().max,
        ),
{
    let n = lo@ - origin@;
    let m = hi@ - origin@;
    let d = dir@;
    let s = spec_slab(lo, hi, origin, dir).unwrap();
    if d > 0 {
        if MIN_RAW < s.min@ < MAX_RAW {
            lemma_scaled_back_lower(n, d, s.min@);
            lemma_scaled_back_upper(n, d, s.min@);
        }
        if MIN_RAW < s.max@ < MAX_RAW {
            lemma_scaled_back_lower(m, d, s.max@);
            lemma_scaled_back_upper(m, d, s.max@);
        }
    } else {
        let e = -d;
        lemma_trunc_div_neg_divisor(m * ONE_RAW, e);
        lemma_trunc_div_neg_divisor(n * ONE_RAW, e);
        if MIN_RAW < s.min@ < MAX_RAW {
            lemma_scaled_back_lower(m, e, -s.min@);
            lemma_scaled_back_upper(m, e, -s.min@);
            assert(e * (-s.min@) == d * s.min@) by (nonlinear_arith)
                requires
                    e == -d,
            ;
        }
        if MIN_RAW < s.max@ < MAX_RAW {
            lemma_scaled_back_lower(n, e, -s.max@);
            lemma_scaled_back_upper(n, e, -s.max@);
            assert(e * (-s.max@) == d * s.max@) by (nonlinear_arith)
                requires
                    e == -d,
            ;
        }
    }
}

/// The two ends of a box intersection give points on the surface of the
/// box, up to rounding: the point at the lower end lies in the plane
/// through which the ray enters the box along one of the axes, and the
/// point at the upper end in a plane through which it leaves. Both lie
/// inside the box up to rounding, as every point of the intersection does.
/// This holds of a box whose corners are in reach of the ray's origin. An
/// end at an infinity, as a ray without direction has it, is excepted.
pub proof fn lemma_box_ends_on_surface(ray: Ray, min: Vec3, max: Vec3)
    requires
        corner_in_reach(min, ray.origin),
        corner_in_reach(max, ray.origin),
        ray.spec_box_intersection(&min, &max) is Some,
    ensures
        ({
            let hit = ray.spec_box_intersection(&min, &max).unwrap();
            &&& hit.min@ > MIN_RAW ==> {
                ||| on_near_face(min.x, max.x, ray.origin.x, ray.dir.x, hit.min)
                ||| on_near_face(min.y, max.y, ray.origin.y, ray.dir.y, hit.min)
                ||| on_near_face(min.z, max.z, ray.origin.z, ray.dir.z, hit.min)
            }
            &&& hit.max@ < MAX_RAW ==> {
                ||| on_far_face(min.x, max.x, ray.origin.x, ray.dir.x, hit.max)
                ||| on_far_face(min.y, max.y, ray.origin.y, ray.dir.y, hit.max)
                ||| on_far_face(min.z, max.z, ray.origin.z, ray.dir.z, hit.max)
            }
        }),
{
    if ray.dir.x@ != 0 {
        lemma_slab_ends(min.x, max.x, ray.origin.x, ray.dir.x);
    }
    if ray.dir.y@ != 0 {
        lemma_slab_ends(min.y, max.y, ray.origin.y, ray.dir.y);
    }
    if ray.dir.z@ != 0 {
        lemma_slab_ends(min.z, max.z, ray.origin.z, ray.dir.z);
    }
}

/// The parameter `t` solves the equation with the coefficients `e` up to
/// the rounding of the solver.
pub open spec fn solves(e: (Scalar, Scalar, Scalar), t: Scalar) -> bool {
    magnitude(4 * e.0@ * quadratic_residual(e.0@, e.1@, e.2@, t@)) <= quadratic_tolerance(
        e.0@,
        spec_discriminant(e.0, e.1, e.2).sqrt()@,
    )
}

/// Both ends of the interval of the roots of an equation solve the
/// equation up to rounding. This holds where no step on the way to the
/// roots saturates, and of ends that are not saturated.
pub proof fn lemma_ends_solve(e: (Scalar, Scalar, Scalar), roots: Seq<Scalar>)
    requires
        solves_in_range(e.0, e.1, e.2),
        e.0@ != 0,
        spec_solve_quadratic(e.0, e.1, e.2) is Some,
        roots.len() > 0,
        forall|i: int|
            0 <= i < roots.len() ==> spec_solve_quadratic(e.0, e.1, e.2).unwrap().contains(
                #[trigger] roots[i],
            ),
        MIN_RAW < IntersectionResult::spec_from_slice(roots).min@,
        IntersectionResult::spec_from_slice(roots).max@ < MAX_RAW,
    ensures
        solves(e, IntersectionResult::spec_from_slice(roots).min),
        solves(e, IntersectionResult::spec_from_slice(roots).max),
{
    let all = spec_solve_quadratic(e.0, e.1, e.2).unwrap();
    let hit = IntersectionResult::spec_from_slice(roots);
    IntersectionResult::lemma_from_slice(roots);
    let p = choose|p: int| 0 <= p < all.len() && all[p] == hit.min;
    let q = choose|q: int| 0 <= q < all.len() && all[q] == hit.max;
    lemma_quadratic_residual(e.0, e.1, e.2, p);
    lemma_quadratic_residual(e.0, e.1, e.2, q);
}

/// Both ends of a sphere intersection solve the sphere's equation up to
/// rounding. This holds of a ray with a direction, where no step on the
/// way to the roots saturates, and of ends that are not saturated.
pub proof fn lemma_sphere_ends_solve(ray: Ray, position: Vec3, radius: Scalar)
    requires
        ({
            let e = ray.spec_sphere_equation(&position, radius);
            solves_in_range(e.0, e.1, e.2)
        }),
        ray.dir.sqr_len()@ != 0,
        ray.spec_sphere_intersection(&position, radius) matches Some(hit) && MIN_RAW < hit.min@
            && hit.max@ < MAX_RAW,
    ensures
        solves(
            ray.spec_sphere_equation(&position, radius),
            ray.spec_sphere_intersection(&position, radius).unwrap().min,
        ),
        solves(
            ray.spec_sphere_equation(&position, radius),
            ray.spec_sphere_intersection(&position, radius).unwrap().max,
        ),
{
    reveal(Ray::spec_sphere_equation);
    let e = ray.spec_sphere_equation(&position, radius);
    let roots = spec_solve_quadratic(e.0, e.1, e.2).unwrap();
    assert forall|i: int| 0 <= i < roots.len() implies roots.contains(#[trigger] roots[i]) by {}
    lemma_ends_solve(e, roots);
}

/// Both ends of an intersection with the lateral surface of a cylinder,
/// unbounded or between the cylinder's ends, solve the cylinder's equation
/// up to rounding. This holds where the equation is quadratic, where no
/// step on the way to the roots saturates, and of ends that are not
/// saturated.
pub proof fn lemma_cylinder_ends_solve(ray: Ray, pa: Vec3, pb: Vec3, r: Scalar, kind: CylinderKind)
    requires
        kind != CylinderKind::Capped,
        ({
            let e = ray.spec_cylinder_equation(&pa, &Ray::spec_cylinder_axis(&pa, &pb), r);
            solves_in_range(e.0, e.1, e.2) && e.0@ != 0
        }),
        ray.spec_cylinder_intersection(&pa, &pb, r, kind) matches Some(hit) && MIN_RAW < hit.min@
            && hit.max@ < MAX_RAW,
    ensures
        solves(
            ray.spec_cylinder_equation(&pa, &Ray::spec_cylinder_axis(&pa, &pb), r),
            ray.spec_cylinder_intersection(&pa, &pb, r, kind).unwrap().min,
        ),
        solves(
            ray.spec_cylinder_equation(&pa, &Ray::spec_cylinder_axis(&pa, &pb), r),
            ray.spec_cylinder_intersection(&pa, &pb, r, kind).unwrap().max,
        ),
{
    let va = Ray::spec_cylinder_axis(&pa, &pb);
    let e = ray.spec_cylinder_equation(&pa, &va, r);
    let roots = spec_solve_quadratic(e.0, e.1, e.2).unwrap();
    if kind == CylinderKind::Infinite {
        assert forall|i: int| 0 <= i < roots.len() implies roots.contains(#[trigger] roots[i]) by {}
        lemma_ends_solve(e, roots);
    } else {
        let keep = |t: Scalar| ray.spec_between_ends(&pa, &pb, &va, t);
        let kept = roots.filter(keep);
        assert forall|i: int| 0 <= i < kept.len() implies roots.contains(#[trigger] kept[i]) by {
            roots.lemma_filter_contains_rev(keep, kept[i]);
        }
        lemma_ends_solve(e, kept);
    }
}

/// The denominator of the containment test for the edges alone: the value
/// of `dot(ba, ba) * dot(ca, ca) - dot(ca, ba) * dot(ca, ba)` for the two
/// edges from the first vertex, rescaled so that their largest coordinate
/// lies between 2^31 and 2^32 raw units. It is positive for a triangle
/// with area.
pub open spec fn triangle_denominator(vertices: &[Vec3; 3]) -> Scalar {
    let ba = vertices[1].sub(vertices[0]);
    let ca = vertices[2].sub(vertices[0]);
    let m = larger(spec_largest_coordinate(&ba), spec_largest_coordinate(&ca));
    let sb = spec_rescale(&ba, m);
    let sc = spec_rescale(&ca, m);
    sc.dot(&sc).mul(sb.dot(&sb)).sub(sc.dot(&sb).mul(sc.dot(&sb)))
}

/// Of the vertices of a triangle, the first counts as inside exactly when
/// the triangle has area, and the other two never do: the sides opposite
/// the first vertex do not belong to the triangle.
pub proof fn lemma_triangle_vertices(vertices: [Vec3; 3])
    ensures
        spec_is_point_inside_triangle(&vertices[0], &vertices) <==> triangle_denominator(
            &vertices,
        )@ > 0,
        !spec_is_point_inside_triangle(&vertices[1], &vertices),
        !spec_is_point_inside_triangle(&vertices[2], &vertices),
{
    let ba = vertices[1].sub(vertices[0]);
    let ca = vertices[2].sub(vertices[0]);
    let m = larger(spec_largest_coordinate(&ba), spec_largest_coordinate(&ca));
    assert(vertices[0].sub(vertices[0]) == Vec3::zero());
    assert(spec_largest_of_three(&ba, &ca, &Vec3::zero()) == m);
    assert(spec_largest_of_three(&ba, &ca, &ba) == m);
    assert(spec_largest_of_three(&ba, &ca, &ca) == m);
    let sb = spec_rescale(&ba, m);
    let sc = spec_rescale(&ca, m);
    lemma_rescale_zero(m);
    sb.lemma_dot_commutes(sc);
    lemma_fx_mul_commutes(sb.dot(&sb)@, sc.dot(&sb)@);
    lemma_fx_mul_commutes(sb.dot(&sb)@, sc.dot(&sc)@);
    lemma_fx_mul_commutes(sc.dot(&sc)@, sc.dot(&sb)@);
    lemma_fx_mul_unit(sb.x@);
    lemma_fx_mul_unit(sb.y@);
    lemma_fx_mul_unit(sb.z@);
    lemma_fx_mul_unit(sc.x@);
    lemma_fx_mul_unit(sc.y@);
    lemma_fx_mul_unit(sc.z@);
    lemma_fx_mul_unit(sb.dot(&sb)@);
    lemma_fx_mul_unit(sc.dot(&sb)@);
    lemma_fx_mul_unit(sc.dot(&sc)@);
}

/// A plane through a point holds the point: the plane's equation vanishes
/// there, whether the normal was taken as it is or scaled to unit length.
/// The one exception is a dot product at minus infinity, which has no
/// negative.
pub proof fn lemma_plane_holds_its_point(normal: Vec3, point: Vec3)
    ensures
        point.dot(&normal)@ > MIN_RAW ==> point.dot(&Plane::through(&normal, &point).normal).add(
            Plane::through(&normal, &point).d,
        )@ == 0,
        Plane::from_normal_and_point(&normal, &point) matches Some(plane) ==> (point.dot(
            &plane.normal,
        )@ > MIN_RAW ==> point.dot(&plane.normal).add(plane.d)@ == 0),
{
}

/// A capped cylinder's interval holds the parameter of each end disk that
/// the ray meets.
pub proof fn lemma_capped_holds_caps(ray: Ray, pa: Vec3, pb: Vec3, r: Scalar)
    requires
        ray.spec_cylinder_intersection(&pa, &pb, r, CylinderKind::Capped) is Some,
    ensures
        ({
            let va = Ray::spec_cylinder_axis(&pa, &pb);
            let hit = ray.spec_cylinder_intersection(&pa, &pb, r, CylinderKind::Capped).unwrap();
            &&& ray.spec_hits_cap(&pa, &va.neg(), r) ==> hit.contains(
                ray.plane_intersection(&Plane::through(&va.neg(), &pa)),
            )
            &&& ray.spec_hits_cap(&pb, &va, r) ==> hit.contains(
                ray.plane_intersection(&Plane::through(&va, &pb)),
            )
            &&& (ray.spec_hits_cap(&pa, &va.neg(), r) || ray.spec_hits_cap(&pb, &va, r))
                ==> hit.is_ordered()
        }),
{
}

/// A capped cylinder's interval holds every root of the cylinder's
/// equation: merging the roots into it once more changes nothing.
pub proof fn lemma_capped_holds_roots(ray: Ray, pa: Vec3, pb: Vec3, r: Scalar)
    requires
        ray.spec_cylinder_intersection(&pa, &pb, r, CylinderKind::Capped) is Some,
    ensures
        ({
            let e = ray.spec_cylinder_equation(&pa, &Ray::spec_cylinder_axis(&pa, &pb), r);
            let roots = spec_solve_quadratic(e.0, e.1, e.2).unwrap();
            let hit = ray.spec_cylinder_intersection(&pa, &pb, r, CylinderKind::Capped).unwrap();
            hit.spec_merge_slice(roots) == hit
        }),
{
    let e = ray.spec_cylinder_equation(&pa, &Ray::spec_cylinder_axis(&pa, &pb), r);
    let roots = spec_solve_quadratic(e.0, e.1, e.2).unwrap();
    let hit = ray.spec_cylinder_intersection(&pa, &pb, r, CylinderKind::Capped).unwrap();
    IntersectionResult::empty().lemma_merge_slice(roots);
    assert forall|i: int| 0 <= i < roots.len() implies hit.contains(#[trigger] roots[i]) by {
        assert(IntersectionResult::spec_from_slice(roots).contains(roots[i]));
    }
    hit.lemma_merge_slice_absorbed(roots);
}

/// A ray that runs along a plane crosses it nowhere, whether it lies in
/// the plane or beside it; and a ray that runs along the plane of a
/// triangle does not intersect the triangle.
pub proof fn lemma_ray_along_plane(ray: Ray, plane: Plane, vertices: [Vec3; 3])
    ensures
        ray.dir.dot(&plane.normal)@ == 0 ==> ray.spec_plane_intersection_point(&plane) is None,
        (Plane::from_normal_and_point(&spec_triangle_normal(&vertices), &vertices[0]) matches Some(
            across,
        ) && ray.dir.dot(&across.normal)@ == 0) ==> ray.spec_triangle_intersection(&vertices)
            is None,
{
}

} // verus!
