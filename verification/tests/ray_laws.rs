use raycast::interval::IntersectionResult;
use raycast::plane::Plane;
use raycast::quadratic::{discriminant, solve_quadratic};
use raycast::ray::{CylinderKind, Ray};
use raycast::scalar::Scalar;
use raycast::vec3::Vec3;

const ONE: i64 = 1 << 24;

/// A small generator of repeatable pseudo-random numbers.
struct Sequence(u64);

impl Sequence {
    fn next(&mut self) -> u64 {
        self.0 = self.0.wrapping_mul(6364136223846793005).wrapping_add(1442695040888963407);
        self.0 >> 33
    }

    /// A scalar between `-span` and `span` whole units.
    fn scalar(&mut self, span: i64) -> Scalar {
        let width = (2 * span * ONE + 1) as u64;
        Scalar::from_raw((self.next() * 7919 % width) as i64 - span * ONE)
    }

    fn vector(&mut self, span: i64) -> Vec3 {
        Vec3::new(self.scalar(span), self.scalar(span), self.scalar(span))
    }
}

fn slack(dir: Scalar) -> i64 {
    dir.to_raw().abs() / ONE + 2
}

fn within(lo: Scalar, hi: Scalar, x: Scalar, dir: Scalar) -> bool {
    lo.to_raw() - slack(dir) <= x.to_raw() && x.to_raw() <= hi.to_raw() + slack(dir)
}

fn ordered_corners(a: Vec3, b: Vec3) -> (Vec3, Vec3) {
    (
        Vec3::new(a.x.min(b.x), a.y.min(b.y), a.z.min(b.z)),
        Vec3::new(a.x.max(b.x), a.y.max(b.y), a.z.max(b.z)),
    )
}

#[test]
fn box_intersection_lies_in_the_box_up_to_rounding() {
    let mut seq = Sequence(1);
    let mut hits = 0;
    for _ in 0..20000 {
        let (min, max) = ordered_corners(seq.vector(4), seq.vector(4));
        let ray = Ray { origin: seq.vector(6), dir: seq.vector(6) };
        if let Some(hit) = ray.box_intersection(&min, &max) {
            hits += 1;
            assert!(hit.min <= hit.max);
            assert!(hit.min < Scalar::one() && hit.max > Scalar::zero());
            let mid = Scalar::from_raw((hit.min.to_raw() + hit.max.to_raw()) / 2);
            for t in [hit.min, mid, hit.max] {
                let p = ray.get_point(t);
                assert!(within(min.x, max.x, p.x, ray.dir.x));
                assert!(within(min.y, max.y, p.y, ray.dir.y));
                assert!(within(min.z, max.z, p.z, ray.dir.z));
            }
        }
    }
    assert!(hits > 100);
}

#[test]
fn point_of_the_segment_inside_the_box_is_found() {
    let mut seq = Sequence(2);
    let mut inside = 0;
    for _ in 0..20000 {
        let (min, max) = ordered_corners(seq.vector(4), seq.vector(4));
        let ray = Ray { origin: seq.vector(4), dir: seq.vector(4) };
        let t = Scalar::from_raw(1 + (seq.next() % (ONE as u64 - 1)) as i64);
        let p = ray.get_point(t);
        let strictly = |lo: Scalar, hi: Scalar, x: Scalar| {
            lo.to_raw() + 1 <= x.to_raw() && x.to_raw() <= hi.to_raw() - 1
        };
        if strictly(min.x, max.x, p.x) && strictly(min.y, max.y, p.y) && strictly(min.z, max.z, p.z)
        {
            inside += 1;
            let hit = ray.box_intersection(&min, &max).unwrap();
            assert!(hit.min <= t && t <= hit.max);
        }
    }
    assert!(inside > 100);
}

#[test]
fn segment_outside_a_slab_misses_the_box() {
    let mut seq = Sequence(3);
    let mut outside = 0;
    for _ in 0..20000 {
        let (min, max) = ordered_corners(seq.vector(4), seq.vector(4));
        let ray = Ray { origin: seq.vector(6), dir: seq.vector(6) };
        let beyond = |lo: Scalar, hi: Scalar, o: Scalar, d: Scalar| {
            let end = o.to_raw() + d.to_raw();
            (o < lo && end < lo.to_raw()) || (o > hi && end > hi.to_raw())
        };
        if beyond(min.x, max.x, ray.origin.x, ray.dir.x)
            || beyond(min.y, max.y, ray.origin.y, ray.dir.y)
            || beyond(min.z, max.z, ray.origin.z, ray.dir.z)
        {
            outside += 1;
            assert_eq!(ray.box_intersection(&min, &max), None);
        }
    }
    assert!(outside > 100);
}

#[test]
fn ray_through_two_points_reaches_them_at_zero_and_one() {
    let mut seq = Sequence(4);
    for _ in 0..2000 {
        let begin = seq.vector(1000);
        let end = seq.vector(1000);
        let ray = Ray::from_two_points(&begin, &end).unwrap();
        assert_eq!(ray.get_point(Scalar::zero()), begin);
        assert_eq!(ray.get_point(Scalar::one()), end);
    }
}

#[test]
fn two_points_give_a_ray_when_far_enough_apart() {
    let at = |x: i64, y: i64, z: i64| {
        Vec3::new(Scalar::from_raw(x), Scalar::from_raw(y), Scalar::from_raw(z))
    };
    let begin = at(5 * ONE, -3 * ONE, 17);
    for (dx, dy, dz, present) in [
        (0, 0, 0, false),
        (1, 0, 0, false),
        (1, 1, -1, false),
        (2, 0, 0, true),
        (0, -2, 0, true),
        (1, 1, 2, true),
        (4095, 4095, -4095, true),
        (1, 2, ONE, true),
    ] {
        let end = at(5 * ONE + dx, -3 * ONE + dy, 17 + dz);
        assert_eq!(Ray::from_two_points(&begin, &end).is_some(), present);
    }
}

#[test]
fn plane_parameter_solves_the_equation_of_the_plane() {
    let mut seq = Sequence(5);
    let mut checked = 0;
    for _ in 0..5000 {
        let plane = match Plane::from_normal_and_point(&seq.vector(3), &seq.vector(5)) {
            Some(plane) => plane,
            None => continue,
        };
        let ray = Ray { origin: seq.vector(5), dir: seq.vector(5) };
        let v = ray.dir.dot(&plane.normal).to_raw() as i128;
        if v == 0 {
            continue;
        }
        let s = ray.origin.dot(&plane.normal).add(plane.d).to_raw() as i128;
        let t = ray.plane_intersection(&plane).to_raw() as i128;
        if t == i64::MAX as i128 || t == i64::MIN as i128 {
            continue;
        }
        assert!((s * ONE as i128 + t * v).abs() < v.abs());
        checked += 1;
    }
    assert!(checked > 1000);
}

#[test]
fn projection_parameter_solves_the_equation_of_the_nearest_point() {
    let mut seq = Sequence(6);
    for _ in 0..5000 {
        let ray = Ray { origin: seq.vector(5), dir: seq.vector(5) };
        let point = seq.vector(5);
        let l = ray.dir.sqr_len().to_raw() as i128;
        if l == 0 {
            continue;
        }
        let w = point.sub(ray.origin).dot(&ray.dir).to_raw() as i128;
        let t = ray.project_point(point).to_raw() as i128;
        assert!((w * ONE as i128 - t * l).abs() < l);
    }
}

#[test]
fn roots_come_in_their_order() {
    let mut seq = Sequence(7);
    let mut solved = 0;
    for _ in 0..20000 {
        let (a, b, c) = (seq.scalar(4), seq.scalar(8), seq.scalar(4));
        if a == Scalar::zero() {
            continue;
        }
        if let Some(roots) = solve_quadratic(a, b, c) {
            solved += 1;
            assert!(discriminant(a, b, c) >= Scalar::zero());
            assert!(!roots.is_empty() && roots.len() <= 2);
            assert_eq!(roots.len() == 1, discriminant(a, b, c) == Scalar::zero());
            let (first, last) = (roots[0], roots[roots.len() - 1]);
            if a > Scalar::zero() {
                assert!(last <= first);
            } else {
                assert!(first <= last);
            }
            let s = discriminant(a, b, c).sqrt().to_raw() as i128;
            let two_a = 2 * a.to_raw() as i128;
            let lhs = (-(b.to_raw() as i128) + s) * ONE as i128;
            if first != Scalar::max_value() && first != Scalar::min_value() {
                assert!((lhs - first.to_raw() as i128 * two_a).abs() < two_a.abs());
            }
        } else {
            assert!(discriminant(a, b, c) < Scalar::zero());
        }
    }
    assert!(solved > 1000);
}

#[test]
fn kinds_of_cylinder_nest() {
    let mut seq = Sequence(8);
    let (mut finite, mut capped) = (0, 0);
    for _ in 0..20000 {
        let ray = Ray { origin: seq.vector(4), dir: seq.vector(4) };
        let (pa, pb) = (seq.vector(2), seq.vector(2));
        let r = Scalar::from_raw(seq.scalar(2).to_raw().abs());
        let unbounded = ray.cylinder_intersection(&pa, &pb, r, CylinderKind::Infinite);
        let with_caps = ray.cylinder_intersection(&pa, &pb, r, CylinderKind::Capped);
        let between = ray.cylinder_intersection(&pa, &pb, r, CylinderKind::Finite);
        assert_eq!(unbounded.is_some(), with_caps.is_some());
        if let (Some(u), Some(c)) = (unbounded, with_caps) {
            capped += 1;
            assert!(c.min <= u.min && u.max <= c.max);
        }
        if let Some(f) = between {
            finite += 1;
            let u = unbounded.unwrap();
            assert!(u.min <= f.min && f.min <= f.max && f.max <= u.max);
        }
    }
    assert!(finite > 50 && capped > 50);
}

#[test]
fn bounding_interval_encloses_its_parts() {
    let mut seq = Sequence(9);
    for _ in 0..5000 {
        let mut parts: Vec<Option<IntersectionResult>> = Vec::new();
        for _ in 0..(seq.next() % 5) {
            if seq.next() % 3 == 0 {
                parts.push(None);
            } else {
                let (a, b) = (seq.scalar(9), seq.scalar(9));
                parts.push(Some(IntersectionResult { min: a.min(b), max: a.max(b) }));
            }
        }
        let bound = IntersectionResult::from_set(&parts);
        assert_eq!(bound.is_none(), parts.iter().all(|p| p.is_none()));
        if let Some(u) = bound {
            assert!(u.min <= u.max);
            let present: Vec<IntersectionResult> = parts.iter().flatten().copied().collect();
            assert!(present.iter().all(|v| u.min <= v.min && v.max <= u.max));
            assert!(present.iter().any(|v| v.min == u.min));
            assert!(present.iter().any(|v| v.max == u.max));
        }
    }
}

#[test]
fn collapsed_triangle_is_never_hit() {
    let mut seq = Sequence(10);
    for _ in 0..2000 {
        let (a, b) = (seq.vector(3), seq.vector(3));
        let ray = Ray { origin: seq.vector(5), dir: seq.vector(5) };
        assert_eq!(ray.triangle_intersection(&[a, a, b]), None);
        assert_eq!(ray.triangle_intersection(&[a, b, a]), None);
        assert_eq!(ray.triangle_intersection(&[a, b, b]), None);
    }
}

fn residual(a: i128, b: i128, c: i128, t: i128) -> i128 {
    let k = ONE as i128;
    a * t * t + b * t * k + c * k * k
}

fn tolerance(a: i128, s: i128) -> i128 {
    let k = ONE as i128;
    (2 * s + 2 * k) * k * k + 4 * a.abs() * s * k + 4 * a * a
}

#[test]
fn roots_solve_the_equation_up_to_rounding() {
    let mut seq = Sequence(11);
    let mut solved = 0;
    for _ in 0..20000 {
        let (a, b, c) = (seq.scalar(6), seq.scalar(12), seq.scalar(6));
        if a == Scalar::zero() {
            continue;
        }
        if let Some(roots) = solve_quadratic(a, b, c) {
            let s = discriminant(a, b, c).sqrt().to_raw() as i128;
            let (a, b, c) = (a.to_raw() as i128, b.to_raw() as i128, c.to_raw() as i128);
            for t in roots {
                if t == Scalar::max_value() || t == Scalar::min_value() {
                    continue;
                }
                solved += 1;
                assert!((4 * a * residual(a, b, c, t.to_raw() as i128)).abs() <= tolerance(a, s));
            }
        }
    }
    assert!(solved > 1000);
}

#[test]
fn ends_of_a_sphere_intersection_lie_on_the_sphere_up_to_rounding() {
    let mut seq = Sequence(12);
    let mut hits = 0;
    for _ in 0..20000 {
        let ray = Ray { origin: seq.vector(6), dir: seq.vector(6) };
        let centre = seq.vector(3);
        let radius = Scalar::from_raw(seq.scalar(4).to_raw().abs());
        if let Some(hit) = ray.sphere_intersection(&centre, radius) {
            if ray.dir.sqr_len() == Scalar::zero() {
                continue;
            }
            hits += 1;
            assert!(hit.min <= hit.max);
            assert!(ray.is_intersect_sphere(centre, radius));
            let d = ray.origin.sub(centre);
            let a = ray.dir.dot(&ray.dir).to_raw() as i128;
            let b = Scalar::from_int(2).mul(ray.dir.dot(&d)).to_raw() as i128;
            let c = d.dot(&d).sub(radius.mul(radius)).to_raw() as i128;
            let s = discriminant(
                Scalar::from_raw(a as i64),
                Scalar::from_raw(b as i64),
                Scalar::from_raw(c as i64),
            )
            .sqrt()
            .to_raw() as i128;
            for t in [hit.min, hit.max] {
                if t == Scalar::max_value() || t == Scalar::min_value() {
                    continue;
                }
                assert!((4 * a * residual(a, b, c, t.to_raw() as i128)).abs() <= tolerance(a, s));
            }
        } else {
            assert!(!ray.is_intersect_sphere(centre, radius));
        }
    }
    assert!(hits > 100);
}

#[test]
fn box_entry_point_may_miss_the_surface_by_a_raw_unit() {
    let n = Scalar::from_int;
    let ray = Ray { origin: Vec3::zero(), dir: Vec3::new(n(3), n(0), n(0)) };
    let hit = ray
        .box_intersection(&Vec3::new(n(1), n(-1), n(-1)), &Vec3::new(n(2), n(1), n(1)))
        .unwrap();
    assert_eq!(hit.min, Scalar::from_ratio(1, 3));
    assert_eq!(hit.max, Scalar::from_ratio(2, 3));
    assert_eq!(ray.get_point(hit.min).x.to_raw(), ONE - 1);
    assert_eq!(ray.get_point(hit.max).x.to_raw(), 2 * ONE - 2);
}

#[test]
fn box_end_is_off_the_surface_where_a_difference_saturates() {
    let n = Scalar::from_int;
    let ray = Ray {
        origin: Vec3::new(Scalar::max_value(), n(0), n(0)),
        dir: Vec3::new(Scalar::from_raw(-i64::MAX), n(0), n(0)),
    };
    let min = Vec3::new(Scalar::min_value(), n(-1), n(-1));
    let max = Vec3::new(Scalar::max_value(), n(1), n(1));
    let hit = ray.box_intersection(&min, &max).unwrap();
    assert_eq!(hit.min, n(0));
    assert_eq!(hit.max, n(1));
    assert_eq!(ray.get_point(hit.max), Vec3::zero());
}

#[test]
fn roots_of_a_saturated_discriminant_do_not_solve_the_equation() {
    let (a, b, c) = (Scalar::from_int(1), Scalar::from_int(1 << 20), Scalar::from_int(0));
    assert_eq!(discriminant(a, b, c), Scalar::max_value());
    let roots = solve_quadratic(a, b, c).unwrap();
    assert_eq!(roots, vec![Scalar::from_raw(-2576315998257), Scalar::from_raw(-15015870046158)]);
    let s = discriminant(a, b, c).sqrt().to_raw() as i128;
    let (a, b, c) = (a.to_raw() as i128, b.to_raw() as i128, c.to_raw() as i128);
    for t in roots {
        assert!(residual(a, b, c, t.to_raw() as i128).abs() > tolerance(a, s) / (4 * a.abs()));
    }
}

#[test]
fn capsule_of_one_point_is_a_sphere() {
    let mut seq = Sequence(13);
    let mut hits = 0;
    for _ in 0..20000 {
        let ray = Ray { origin: seq.vector(4), dir: seq.vector(4) };
        let p = seq.vector(2);
        let r = Scalar::from_raw(seq.scalar(3).to_raw().abs());
        let capsule = ray.capsule_intersection(&p, &p, r);
        assert_eq!(capsule, ray.sphere_intersection_points(&p, r));
        if capsule.is_some() {
            hits += 1;
        }
    }
    assert!(hits > 100);
}
