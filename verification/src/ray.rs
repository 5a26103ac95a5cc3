//! Rays and their intersections with simple solids.
use crate::interval::IntersectionResult;
use crate::plane::Plane;
use crate::quadratic::{solve_quadratic, spec_discriminant, spec_solve_quadratic};
use crate::scalar::Scalar;
use crate::triangle::{
    is_point_inside_triangle, spec_is_point_inside_triangle, triangle_normal,
};
use crate::vec3::Vec3;
use vstd::prelude::*;

verus! {

/// The points `origin + dir * t`. The parameters from zero to one make up
/// the segment from `origin` to `origin + dir`; `dir` need not have unit
/// length.
#[derive(Clone, Copy, Debug, PartialEq, Eq, Structural)]
pub struct Ray {
    pub origin: Vec3,
    pub dir: Vec3,
}

/// How much of a cylinder counts.
#[derive(Clone, Copy, Debug, PartialEq, Eq, Structural)]
pub enum CylinderKind {
    /// The lateral surface, unbounded along the axis.
    Infinite,
    /// The lateral surface between the two ends of the axis, without end
    /// disks.
    Finite,
    /// The lateral surface together with the two end disks.
    Capped,
}

/// The parameters over which a line stays between `lo` and `hi` along one
/// axis, where it starts at `origin` and advances by `dir` per unit of the
/// parameter.
///
/// A line that does not advance along the axis is between the bounds for
/// every parameter or for none.
pub open spec fn spec_slab(lo: Scalar, hi: Scalar, origin: Scalar, dir: Scalar) -> Option<
    IntersectionResult,
> {
    if dir@ > 0 {
        Some(IntersectionResult { min: lo.sub(origin).div(dir), max: hi.sub(origin).div(dir) })
    } else if dir@ < 0 {
        Some(IntersectionResult { min: hi.sub(origin).div(dir), max: lo.sub(origin).div(dir) })
    } else if lo@ <= origin@ <= hi@ {
        Some(IntersectionResult { min: Scalar::min_value(), max: Scalar::max_value() })
    } else {
        None
    }
}

/// The parameters over which a line stays between `lo` and `hi` along one
/// axis.
#[verifier::when_used_as_spec(spec_slab)]
pub fn slab(lo: Scalar, hi: Scalar, origin: Scalar, dir: Scalar) -> (r: Option<IntersectionResult>)
    ensures
        r == spec_slab(lo, hi, origin, dir),
{
    if dir.gt(Scalar::zero()) {
        Some(IntersectionResult { min: lo.sub(origin).div(dir), max: hi.sub(origin).div(dir) })
    } else if dir.lt(Scalar::zero()) {
        Some(IntersectionResult { min: hi.sub(origin).div(dir), max: lo.sub(origin).div(dir) })
    } else if lo.le(origin) && origin.le(hi) {
        Some(IntersectionResult { min: Scalar::min_value(), max: Scalar::max_value() })
    } else {
        None
    }
}

impl Ray {
    pub open spec fn spec_from_two_points(begin: &Vec3, end: &Vec3) -> Option<Ray> {
        let dir = end.sub(*begin);
        if dir.len().ge(Scalar::epsilon()) {
            Some(Ray { origin: *begin, dir })
        } else {
            None
        }
    }

    pub open spec fn spec_get_point(&self, t: Scalar) -> Vec3 {
        self.origin.add(self.dir.scale(t))
    }

    pub open spec fn spec_box_intersection(&self, min: &Vec3, max: &Vec3) -> Option<
        IntersectionResult,
    > {
        match (
            slab(min.x, max.x, self.origin.x, self.dir.x),
            slab(min.y, max.y, self.origin.y, self.dir.y),
            slab(min.z, max.z, self.origin.z, self.dir.z),
        ) {
            (Some(x), Some(y), Some(z)) => match x.overlap(&y) {
                Some(xy) => match xy.overlap(&z) {
                    Some(xyz) => if xyz.min.lt(Scalar::one()) && xyz.max.gt(Scalar::zero()) {
                        Some(xyz)
                    } else {
                        None
                    },
                    None => None,
                },
                None => None,
            },
            _ => None,
        }
    }

    pub open spec fn spec_project_point(&self, point: Vec3) -> Scalar {
        point.sub(self.origin).dot(&self.dir).div(self.dir.sqr_len())
    }

    /// The coefficients `(a, b, c)` of the equation `a*t*t + b*t + c == 0`
    /// that the parameters of the ray's points on a sphere satisfy:
    /// with `d` the offset of the ray's origin from the centre,
    /// `a = dir.dir`, `b = 2 (dir.d)` and `c = d.d - radius*radius`.
    #[verifier::opaque]
    pub open spec fn spec_sphere_equation(&self, position: &Vec3, radius: Scalar) -> (
        Scalar,
        Scalar,
        Scalar,
    ) {
        let d = self.origin.sub(*position);
        (
            self.dir.dot(&self.dir),
            Scalar::from_int(2).mul(self.dir.dot(&d)),
            d.dot(&d).sub(radius.mul(radius)),
        )
    }

    pub open spec fn spec_sphere_intersection(&self, position: &Vec3, radius: Scalar) -> Option<
        IntersectionResult,
    > {
        let (a, b, c) = self.spec_sphere_equation(position, radius);
        match spec_solve_quadratic(a, b, c) {
            Some(roots) => Some(IntersectionResult::spec_from_slice(roots)),
            None => None,
        }
    }

    pub open spec fn spec_is_intersect_sphere(&self, position: Vec3, radius: Scalar) -> bool {
        let (a, b, c) = self.spec_sphere_equation(&position, radius);
        spec_discriminant(a, b, c)@ >= 0
    }

    pub open spec fn spec_try_eval_points(&self, result: Option<IntersectionResult>) -> Option<
        [Vec3; 2],
    > {
        match result {
            None => None,
            Some(result) => {
                let first = 0 <= result.min@ <= Scalar::one()@;
                let second = 0 <= result.max@ <= Scalar::one()@;
                if first && second {
                    Some([self.get_point(result.min), self.get_point(result.max)])
                } else if first {
                    Some([self.get_point(result.min), self.get_point(result.min)])
                } else if second {
                    Some([self.get_point(result.max), self.get_point(result.max)])
                } else {
                    None
                }
            },
        }
    }

    pub open spec fn spec_sphere_intersection_points(
        &self,
        position: &Vec3,
        radius: Scalar,
    ) -> Option<[Vec3; 2]> {
        self.spec_try_eval_points(self.spec_sphere_intersection(position, radius))
    }

    pub open spec fn spec_box_intersection_points(&self, min: &Vec3, max: &Vec3) -> Option<
        [Vec3; 2],
    > {
        self.spec_try_eval_points(self.box_intersection(min, max))
    }

    pub open spec fn spec_plane_intersection(&self, plane: &Plane) -> Scalar {
        self.origin.dot(&plane.normal).add(plane.d).neg().div(self.dir.dot(&plane.normal))
    }

    pub open spec fn spec_plane_intersection_point(&self, plane: &Plane) -> Option<Vec3> {
        let t = self.plane_intersection(plane);
        if self.dir.dot(&plane.normal)@ == 0 || t@ < 0 || t@ > Scalar::one()@ {
            None
        } else {
            Some(self.get_point(t))
        }
    }

    pub open spec fn spec_triangle_intersection(&self, vertices: &[Vec3; 3]) -> Option<Vec3> {
        match Plane::from_normal_and_point(&triangle_normal(vertices), &vertices[0]) {
            None => None,
            Some(plane) => match self.plane_intersection_point(&plane) {
                None => None,
                Some(point) => if spec_is_point_inside_triangle(&point, vertices) {
                    Some(point)
                } else {
                    None
                },
            },
        }
    }

    /// The direction of a cylinder's axis: from `pa` toward `pb`, of unit
    /// length. Where the two points are too close to give a direction, it
    /// is the y axis.
    #[verifier::opaque]
    pub open spec fn spec_cylinder_axis(pa: &Vec3, pb: &Vec3) -> Vec3 {
        match pb.sub(*pa).normalized() {
            Some(va) => va,
            None => Vec3::new(Scalar::zero(), Scalar::one(), Scalar::zero()),
        }
    }

    /// The coefficients `(a, b, c)` of the equation `a*t*t + b*t + c == 0`
    /// that the parameters of the ray's points on an unbounded cylinder
    /// satisfy. The cylinder has the radius `r` about the line through `pa`
    /// with the direction `va`. With `v` the ray's direction and `dp` the
    /// offset of its origin from `pa`, both without their parts along `va`,
    /// `a = v.v`, `b = 2 (v.dp)` and `c = dp.dp - r*r`.
    #[verifier::opaque]
    pub open spec fn spec_cylinder_equation(&self, pa: &Vec3, va: &Vec3, r: Scalar) -> (
        Scalar,
        Scalar,
        Scalar,
    ) {
        let vl = self.dir.sub(va.scale(self.dir.dot(va)));
        let dp = self.origin.sub(*pa);
        let dpva = dp.sub(va.scale(dp.dot(va)));
        (vl.sqr_len(), Scalar::from_int(2).mul(vl.dot(&dpva)), dpva.sqr_len().sub(r.mul(r)))
    }

    /// Whether the ray meets the disk of radius `r` about `center`, in the
    /// plane with the given normal, at a positive parameter. A ray that
    /// runs along the plane of the disk meets it nowhere.
    #[verifier::opaque]
    pub open spec fn spec_hits_cap(&self, center: &Vec3, normal: &Vec3, r: Scalar) -> bool {
        let t = self.plane_intersection(&Plane::through(normal, center));
        self.dir.dot(normal)@ != 0 && t@ > 0 && center.sqr_distance(&self.get_point(t))@ <= r.mul(
            r,
        )@
    }

    /// The interval `result`, widened by the parameter at which the ray
    /// meets the given end disk, if it does.
    pub open spec fn spec_with_cap(
        &self,
        result: IntersectionResult,
        center: &Vec3,
        normal: &Vec3,
        r: Scalar,
    ) -> IntersectionResult {
        if self.spec_hits_cap(center, normal, r) {
            result.spec_merge(self.plane_intersection(&Plane::through(normal, center)))
        } else {
            result
        }
    }

    /// Whether the ray's point at the parameter `t` lies between the two
    /// planes through `pa` and `pb` that stand across the axis `va`.
    #[verifier::opaque]
    pub open spec fn spec_between_ends(&self, pa: &Vec3, pb: &Vec3, va: &Vec3, t: Scalar) -> bool {
        let point = self.get_point(t);
        point.sub(*pa).dot(va)@ >= 0 && pb.sub(point).dot(va)@ >= 0
    }

    /// Those of `roots` at which the ray lies between the two ends, in
    /// their order.
    pub open spec fn spec_roots_between_ends(
        &self,
        pa: &Vec3,
        pb: &Vec3,
        va: &Vec3,
        roots: Seq<Scalar>,
    ) -> Seq<Scalar> {
        roots.filter(|t: Scalar| self.spec_between_ends(pa, pb, va, t))
    }

    /// The interval of those of `roots` at which the ray lies between the
    /// two ends; absent when there is none.
    pub open spec fn spec_lateral_between_ends(
        &self,
        pa: &Vec3,
        pb: &Vec3,
        va: &Vec3,
        roots: Seq<Scalar>,
    ) -> Option<IntersectionResult> {
        let kept = self.spec_roots_between_ends(pa, pb, va, roots);
        if kept.len() == 0 {
            None
        } else {
            Some(IntersectionResult::spec_from_slice(kept))
        }
    }

    /// Taking one more root into account either leaves the interval of the
    /// roots between the ends as it is, or merges the root into it, or
    /// makes it the interval of that root alone.
    pub proof fn lemma_lateral_step(&self, pa: &Vec3, pb: &Vec3, va: &Vec3, roots: Seq<Scalar>)
        requires
            roots.len() > 0,
        ensures
            self.spec_lateral_between_ends(pa, pb, va, roots) == if !self.spec_between_ends(
                pa,
                pb,
                va,
                roots.last(),
            ) {
                self.spec_lateral_between_ends(pa, pb, va, roots.drop_last())
            } else {
                match self.spec_lateral_between_ends(pa, pb, va, roots.drop_last()) {
                    None => Some(IntersectionResult { min: roots.last(), max: roots.last() }),
                    Some(acc) => Some(acc.spec_merge(roots.last())),
                }
            },
    {
        let keep = |t: Scalar| self.spec_between_ends(pa, pb, va, t);
        let root = roots.last();
        let kept = roots.drop_last().filter(keep);
        assert(kept == self.spec_roots_between_ends(pa, pb, va, roots.drop_last()));
        assert(roots.filter(keep) == self.spec_roots_between_ends(pa, pb, va, roots));
        reveal(Seq::filter);
        if keep(root) {
            assert(roots.filter(keep) == kept.push(root));
            assert(kept.push(root).drop_last() == kept);
            assert(kept.push(root).last() == root);
            assert(IntersectionResult::spec_from_slice(kept.push(root))
                == IntersectionResult::spec_from_slice(kept).spec_merge(root));
            if kept.len() == 0 {
                assert(IntersectionResult::spec_from_slice(kept) == IntersectionResult::empty());
            }
        } else {
            assert(roots.filter(keep) == kept);
        }
    }

    pub open spec fn spec_cylinder_intersection(
        &self,
        pa: &Vec3,
        pb: &Vec3,
        r: Scalar,
        kind: CylinderKind,
    ) -> Option<IntersectionResult> {
        let va = Ray::spec_cylinder_axis(pa, pb);
        let (a, b, c) = self.spec_cylinder_equation(pa, &va, r);
        match spec_solve_quadratic(a, b, c) {
            None => None,
            Some(roots) => match kind {
                CylinderKind::Infinite => Some(IntersectionResult::spec_from_slice(roots)),
                CylinderKind::Capped => Some(
                    self.spec_with_cap(
                        self.spec_with_cap(
                            IntersectionResult::spec_from_slice(roots),
                            pa,
                            &va.neg(),
                            r,
                        ),
                        pb,
                        &va,
                        r,
                    ),
                ),
                CylinderKind::Finite => self.spec_lateral_between_ends(pa, pb, &va, roots),
            },
        }
    }

    /// The ray's intersection with the lateral surface of a capsule: that
    /// with the cylinder between the two ends. A capsule whose ends are too
    /// close to give the axis a direction has no lateral surface.
    pub open spec fn spec_capsule_side(&self, pa: &Vec3, pb: &Vec3, radius: Scalar) -> Option<
        IntersectionResult,
    > {
        if pb.sub(*pa).is_distinct_from_zero() {
            self.spec_cylinder_intersection(pa, pb, radius, CylinderKind::Finite)
        } else {
            None
        }
    }

    pub open spec fn spec_capsule_intersection(&self, pa: &Vec3, pb: &Vec3, radius: Scalar) -> Option<
        [Vec3; 2],
    > {
        self.spec_try_eval_points(
            IntersectionResult::spec_from_set(
                seq![
                    self.spec_capsule_side(pa, pb, radius),
                    self.spec_sphere_intersection(pa, radius),
                    self.spec_sphere_intersection(pb, radius),
                ],
            ),
        )
    }

    /// The ray from `begin` through `end`, which it reaches at the parameter
    /// one. Absent when the two points are closer than the smallest length
    /// that counts as non-zero.
    #[verifier::when_used_as_spec(spec_from_two_points)]
    pub fn from_two_points(begin: &Vec3, end: &Vec3) -> (r: Option<Ray>)
        ensures
            r == Ray::spec_from_two_points(begin, end),
            r is Some <==> end.sub(*begin).is_distinct_from_zero(),
            r matches Some(ray) ==> ray.origin == *begin && ray.dir == end.sub(*begin),
    {
        proof {
            end.sub(*begin).lemma_normalized_present();
        }
        let dir = end.sub(*begin);
        if dir.len().ge(Scalar::epsilon()) {
            Some(Ray { origin: *begin, dir })
        } else {
            None
        }
    }

    /// The coefficients of the quadratic equation for a sphere.
    fn sphere_equation(&self, position: &Vec3, radius: Scalar) -> (r: (Scalar, Scalar, Scalar))
        ensures
            r == self.spec_sphere_equation(position, radius),
    {
        proof {
            reveal(Ray::spec_sphere_equation);
        }
        let d = self.origin.sub(*position);
        let a = self.dir.dot(&self.dir);
        let b = Scalar::from_int(2).mul(self.dir.dot(&d));
        let c = d.dot(&d).sub(radius.mul(radius));
        (a, b, c)
    }

    /// The two points at which the ray's segment crosses the sphere; see
    /// `try_eval_points` for what is given when only one crossing lies on
    /// the segment.
    pub fn sphere_intersection_points(&self, position: &Vec3, radius: Scalar) -> (r: Option<
        [Vec3; 2],
    >)
        ensures
            r == self.spec_sphere_intersection_points(position, radius),
    {
        self.try_eval_points(self.sphere_intersection(position, radius))
    }

    /// The parameters between which the ray is inside the sphere about
    /// `position`: the interval of the roots of the sphere's equation.
    ///
    /// The result is present exactly when the discriminant of that equation
    /// is not negative. For a ray without direction the equation has no
    /// roots, and the interval is the empty one.
    pub fn sphere_intersection(&self, position: &Vec3, radius: Scalar) -> (r: Option<
        IntersectionResult,
    >)
        ensures
            r == self.spec_sphere_intersection(position, radius),
            r is Some <==> self.spec_is_intersect_sphere(*position, radius),
    {
        let (a, b, c) = self.sphere_equation(position, radius);
        match solve_quadratic(a, b, c) {
            Some(roots) => Some(IntersectionResult::from_slice(roots.as_slice())),
            None => None,
        }
    }

    /// Whether the ray's line meets the sphere about `position`: whether
    /// the discriminant of the sphere's equation is not negative.
    #[verifier::when_used_as_spec(spec_is_intersect_sphere)]
    pub fn is_intersect_sphere(&self, position: Vec3, radius: Scalar) -> (r: bool)
        ensures
            r == self.spec_is_intersect_sphere(position, radius),
            r == self.spec_sphere_intersection(&position, radius).is_some(),
    {
        let (a, b, c) = self.sphere_equation(&position, radius);
        let four_ac = Scalar::from_int(4).mul(a).mul(c);
        b.mul(b).sub(four_ac).ge(Scalar::zero())
    }

    /// The parameter of the point of the ray's line that is nearest to
    /// `point`: the offset of `point` from the origin, dotted with the
    /// direction and divided by the direction's squared length.
    ///
    /// For a ray without direction the division is by zero, with the
    /// result that `Scalar::div` gives.
    #[verifier::when_used_as_spec(spec_project_point)]
    pub fn project_point(&self, point: Vec3) -> (r: Scalar)
        ensures
            r == self.spec_project_point(point),
    {
        point.sub(self.origin).dot(&self.dir).div(self.dir.sqr_len())
    }

    /// The point of the ray at the parameter `t`.
    #[verifier::when_used_as_spec(spec_get_point)]
    pub fn get_point(&self, t: Scalar) -> (r: Vec3)
        ensures
            r == self.spec_get_point(t),
    {
        self.origin.add(self.dir.scale(t))
    }

    /// The parameters over which the ray is inside the box with the corners
    /// `min` and `max`, its edges along the axes.
    ///
    /// The three intervals over which the ray is between the box's planes
    /// along x, y and z are cut to their common part. The result is absent
    /// when the ray misses the box, and also when the common part does not
    /// reach into the segment of the parameters from zero to one.
    #[verifier::when_used_as_spec(spec_box_intersection)]
    pub fn box_intersection(&self, min: &Vec3, max: &Vec3) -> (r: Option<IntersectionResult>)
        ensures
            r == self.spec_box_intersection(min, max),
            r matches Some(hit) ==> hit.min@ < Scalar::one()@ && hit.max@ > 0,
    {
        let x = match slab(min.x, max.x, self.origin.x, self.dir.x) {
            Some(x) => x,
            None => {
                return None;
            },
        };
        let y = match slab(min.y, max.y, self.origin.y, self.dir.y) {
            Some(y) => y,
            None => {
                return None;
            },
        };
        let xy = match x.overlap(&y) {
            Some(xy) => xy,
            None => {
                return None;
            },
        };
        let z = match slab(min.z, max.z, self.origin.z, self.dir.z) {
            Some(z) => z,
            None => {
                return None;
            },
        };
        let xyz = match xy.overlap(&z) {
            Some(xyz) => xyz,
            None => {
                return None;
            },
        };
        if xyz.min.lt(Scalar::one()) && xyz.max.gt(Scalar::zero()) {
            Some(xyz)
        } else {
            None
        }
    }

    /// The two points at which the ray's segment crosses the box; see
    /// `try_eval_points` for what is given when only one crossing lies on
    /// the segment.
    pub fn box_intersection_points(&self, min: &Vec3, max: &Vec3) -> (r: Option<[Vec3; 2]>)
        ensures
            r == self.spec_box_intersection_points(min, max),
    {
        self.try_eval_points(self.box_intersection(min, max))
    }

    /// The parameter at which the ray's line crosses the plane: the `t` with
    /// `dot(origin, n) + d + t * dot(dir, n) == 0`.
    ///
    /// The parameter is given as it is: one below zero or above one lies
    /// off the segment. A ray along the plane divides by zero, which gives
    /// an infinity, or zero when its origin is in the plane; such a ray
    /// crosses the plane nowhere, and `plane_intersection_point` gives no
    /// point for it.
    #[verifier::when_used_as_spec(spec_plane_intersection)]
    pub fn plane_intersection(&self, plane: &Plane) -> (r: Scalar)
        ensures
            r == self.spec_plane_intersection(plane),
    {
        let u = self.origin.dot(&plane.normal).add(plane.d).neg();
        let v = self.dir.dot(&plane.normal);
        u.div(v)
    }

    /// The point at which the ray's segment crosses the plane. Absent when
    /// the crossing has a parameter below zero or above one, and when the
    /// ray runs along the plane: a ray that does not approach the plane
    /// crosses it nowhere, also where it lies in the plane.
    #[verifier::when_used_as_spec(spec_plane_intersection_point)]
    pub fn plane_intersection_point(&self, plane: &Plane) -> (r: Option<Vec3>)
        ensures
            r == self.spec_plane_intersection_point(plane),
            r is Some <==> self.dir.dot(&plane.normal)@ != 0 && 0 <= self.plane_intersection(
                plane,
            )@ <= Scalar::one()@,
            r matches Some(point) ==> point == self.get_point(self.plane_intersection(plane)),
    {
        if self.dir.dot(&plane.normal).raw == 0 {
            return None;
        }
        let t = self.plane_intersection(plane);
        if t.lt(Scalar::zero()) || t.gt(Scalar::one()) {
            None
        } else {
            Some(self.get_point(t))
        }
    }

    /// The point at which the ray's segment crosses the triangle.
    ///
    /// The triangle's plane goes through the first vertex, with the cross
    /// product of the edges to the second and the third vertex as normal;
    /// `triangle_normal` takes it of the edges brought to a common scale,
    /// so that a small triangle has a plane too.
    /// The result is absent when the triangle has no such plane, when the
    /// segment does not cross the plane, and when it crosses outside the
    /// triangle.
    #[verifier::when_used_as_spec(spec_triangle_intersection)]
    pub fn triangle_intersection(&self, vertices: &[Vec3; 3]) -> (r: Option<Vec3>)
        ensures
            r == self.spec_triangle_intersection(vertices),
            r matches Some(point) ==> spec_is_point_inside_triangle(&point, vertices),
    {
        let plane = match Plane::from_normal_and_point(&triangle_normal(vertices), &vertices[0]) {
            Some(plane) => plane,
            None => {
                return None;
            },
        };
        if let Some(point) = self.plane_intersection_point(&plane) {
            if is_point_inside_triangle(&point, vertices) {
                return Some(point);
            }
        }
        None
    }

    /// The direction of a cylinder's axis.
    fn cylinder_axis(pa: &Vec3, pb: &Vec3) -> (va: Vec3)
        ensures
            va == Ray::spec_cylinder_axis(pa, pb),
    {
        proof {
            reveal(Ray::spec_cylinder_axis);
        }
        match pb.sub(*pa).normalized() {
            Some(va) => va,
            None => Vec3::new(Scalar::zero(), Scalar::one(), Scalar::zero()),
        }
    }

    /// The coefficients of the quadratic equation for an unbounded cylinder.
    fn cylinder_equation(&self, pa: &Vec3, va: &Vec3, r: Scalar) -> (e: (Scalar, Scalar, Scalar))
        ensures
            e == self.spec_cylinder_equation(pa, va, r),
    {
        proof {
            reveal(Ray::spec_cylinder_equation);
        }
        let vl = self.dir.sub(va.scale(self.dir.dot(va)));
        let dp = self.origin.sub(*pa);
        let dpva = dp.sub(va.scale(dp.dot(va)));
        let a = vl.sqr_len();
        let b = Scalar::from_int(2).mul(vl.dot(&dpva));
        let c = dpva.sqr_len().sub(r.mul(r));
        (a, b, c)
    }

    /// Widens `result` by the parameter at which the ray meets an end disk,
    /// if it does.
    fn merge_cap(&self, result: &mut IntersectionResult, center: &Vec3, normal: &Vec3, r: Scalar)
        ensures
            *final(result) == self.spec_with_cap(*old(result), center, normal, r),
    {
        proof {
            reveal(Ray::spec_hits_cap);
        }
        let t = self.plane_intersection(&Plane::through(normal, center));
        if self.dir.dot(normal).raw != 0 && t.gt(Scalar::zero()) {
            let intersection = self.get_point(t);
            if center.sqr_distance(&intersection).le(r.mul(r)) {
                result.merge(t);
            }
        }
    }

    /// Whether the ray's point at the parameter `t` lies between the two
    /// ends of a cylinder.
    fn between_ends(&self, pa: &Vec3, pb: &Vec3, va: &Vec3, t: Scalar) -> (r: bool)
        ensures
            r == self.spec_between_ends(pa, pb, va, t),
    {
        proof {
            reveal(Ray::spec_between_ends);
        }
        let point = self.get_point(t);
        point.sub(*pa).dot(va).ge(Scalar::zero()) && pb.sub(point).dot(va).ge(Scalar::zero())
    }

    /// The parameters between which the ray is inside a cylinder of the
    /// radius `r` about the axis from `pa` to `pb`.
    ///
    /// The roots of the unbounded cylinder's equation come first; without
    /// real roots there is no intersection, whatever the kind. What is made
    /// of the roots depends on the kind:
    ///
    /// - `Infinite`: the interval of the roots.
    /// - `Capped`: the interval of the roots, widened by the parameter at
    ///   which the ray meets the disk about `pa` and by that at which it
    ///   meets the disk about `pb`. A disk counts when the ray does not run
    ///   along its plane, the parameter is positive and the point lies
    ///   within `r` of the disk's centre.
    /// - `Finite`: the interval of those roots at which the ray lies
    ///   between the two ends; absent when there is no such root.
    ///
    /// Where `pa` and `pb` are too close to give the axis a direction, the
    /// axis is taken along y.
    pub fn cylinder_intersection(&self, pa: &Vec3, pb: &Vec3, r: Scalar, kind: CylinderKind) -> (res:
        Option<IntersectionResult>)
        ensures
            res == self.spec_cylinder_intersection(pa, pb, r, kind),
            kind != CylinderKind::Finite ==> (res is Some <==> ({
                let e = self.spec_cylinder_equation(pa, &Ray::spec_cylinder_axis(pa, pb), r);
                spec_discriminant(e.0, e.1, e.2)@ >= 0
            })),
            kind == CylinderKind::Finite ==> (res is Some ==> ({
                let e = self.spec_cylinder_equation(pa, &Ray::spec_cylinder_axis(pa, pb), r);
                spec_discriminant(e.0, e.1, e.2)@ >= 0
            })),
    {
        let va = Ray::cylinder_axis(pa, pb);
        let (a, b, c) = self.cylinder_equation(pa, &va, r);
        let cylinder_roots = match solve_quadratic(a, b, c) {
            Some(roots) => roots,
            None => {
                return None;
            },
        };
        match kind {
            CylinderKind::Infinite => Some(IntersectionResult::from_slice(cylinder_roots.as_slice())),
            CylinderKind::Capped => {
                let mut result = IntersectionResult::from_slice(cylinder_roots.as_slice());
                self.merge_cap(&mut result, pa, &va.neg(), r);
                self.merge_cap(&mut result, pb, &va, r);
                Some(result)
            },
            CylinderKind::Finite => self.lateral_between_ends(pa, pb, &va, &cylinder_roots),
        }
    }

    /// The interval of those of `roots` at which the ray lies between the
    /// two ends of a cylinder; absent when there is none.
    fn lateral_between_ends(&self, pa: &Vec3, pb: &Vec3, va: &Vec3, roots: &Vec<Scalar>) -> (res:
        Option<IntersectionResult>)
        ensures
            res == self.spec_lateral_between_ends(pa, pb, va, roots@),
    {
        let mut result: Option<IntersectionResult> = None;
        let mut i: usize = 0;
        proof {
            roots@.take(0).lemma_filter_len(|t: Scalar| self.spec_between_ends(pa, pb, va, t));
        }
        while i < roots.len()
            invariant
                i <= roots@.len(),
                result == self.spec_lateral_between_ends(pa, pb, va, roots@.take(i as int)),
            decreases roots@.len() - i,
        {
            let root = roots[i];
            proof {
                let next = roots@.take(i + 1);
                assert(next.drop_last() == roots@.take(i as int));
                assert(next.last() == root);
                self.lemma_lateral_step(pa, pb, va, next);
            }
            if self.between_ends(pa, pb, va, root) {
                match result {
                    None => {
                        result = Some(IntersectionResult { min: root, max: root });
                    },
                    Some(mut acc) => {
                        acc.merge(root);
                        result = Some(acc);
                    },
                }
            }
            i += 1;
        }
        proof {
            assert(roots@.take(i as int) == roots@);
        }
        result
    }

    /// The points of the ray at the two ends of an interval, as far as they
    /// lie on the segment of the parameters from zero to one.
    ///
    /// With both ends on the segment the result holds the point at `min`
    /// and then the point at `max`. With one end on the segment it holds
    /// that end's point twice. It is absent when no end is on the segment,
    /// and when `result` is absent.
    #[verifier::when_used_as_spec(spec_try_eval_points)]
    pub fn try_eval_points(&self, result: Option<IntersectionResult>) -> (r: Option<[Vec3; 2]>)
        ensures
            r == self.spec_try_eval_points(result),
            r is Some <==> (result matches Some(ends) && (0 <= ends.min@ <= Scalar::one()@ || 0
                <= ends.max@ <= Scalar::one()@)),
    {
        match result {
            None => None,
            Some(result) => {
                let a = if result.min.ge(Scalar::zero()) && result.min.le(Scalar::one()) {
                    Some(self.get_point(result.min))
                } else {
                    None
                };
                let b = if result.max.ge(Scalar::zero()) && result.max.le(Scalar::one()) {
                    Some(self.get_point(result.max))
                } else {
                    None
                };
                match a {
                    None => match b {
                        None => None,
                        Some(b) => Some([b, b]),
                    },
                    Some(a) => match b {
                        None => Some([a, a]),
                        Some(b) => Some([a, b]),
                    },
                }
            },
        }
    }

    /// The two points at which the ray's segment crosses a capsule: the
    /// cylinder of the given radius about the axis from `pa` to `pb`,
    /// closed by a sphere of that radius about each end.
    ///
    /// The interval that bounds the ray's intersections with the lateral
    /// surface between the ends and with the two spheres is evaluated as
    /// `try_eval_points` does. Where the two ends are too close to give
    /// the axis a direction, there is no lateral surface between them, and
    /// the capsule is the two spheres alone: a capsule whose ends coincide
    /// is a sphere.
    pub fn capsule_intersection(&self, pa: &Vec3, pb: &Vec3, radius: Scalar) -> (r: Option<
        [Vec3; 2],
    >)
        ensures
            r == self.spec_capsule_intersection(pa, pb, radius),
            *pa == *pb ==> r == self.spec_sphere_intersection_points(pa, radius),
    {
        proof {
            crate::ray_lemmas::lemma_capsule_of_one_point(*self, *pa, radius);
        }
        let cylinder = if pb.sub(*pa).normalized().is_some() {
            self.cylinder_intersection(pa, pb, radius, CylinderKind::Finite)
        } else {
            None
        };
        let cap_a = self.sphere_intersection(pa, radius);
        let cap_b = self.sphere_intersection(pb, radius);
        let parts = [cylinder, cap_a, cap_b];
        proof {
            assert(parts@ == seq![cylinder, cap_a, cap_b]);
        }
        self.try_eval_points(IntersectionResult::from_set(parts.as_slice()))
    }
}

impl Default for Ray {
    /// The ray from the origin along the z axis.
    fn default() -> (r: Ray)
        ensures
            r == (Ray {
                origin: Vec3::zero(),
                dir: Vec3::new(Scalar::zero(), Scalar::zero(), Scalar::one()),
            }),
    {
        Ray { origin: Vec3::zero(), dir: Vec3::new(Scalar::zero(), Scalar::zero(), Scalar::one()) }
    }
}

} // verus!
