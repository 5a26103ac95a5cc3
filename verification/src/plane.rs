//! Planes in space.
use crate::scalar::Scalar;
use crate::vec3::Vec3;
use vstd::prelude::*;

verus! {

/// The plane of the points `p` with `dot(p, normal) + d == 0`.
#[derive(Clone, Copy, Debug, PartialEq, Eq, Structural)]
pub struct Plane {
    pub normal: Vec3,
    pub d: Scalar,
}

impl Plane {
    pub open spec fn spec_from_normal_and_point(normal: &Vec3, point: &Vec3) -> Option<Plane> {
        match normal.normalized() {
            Some(unit) => Some(Plane { normal: unit, d: point.dot(&unit).neg() }),
            None => None,
        }
    }

    pub open spec fn spec_through(normal: &Vec3, point: &Vec3) -> Plane {
        Plane { normal: *normal, d: point.dot(normal).neg() }
    }

    /// The plane through `point` whose normal is `normal` scaled to unit
    /// length. Absent when `normal` is too short to be normalized.
    #[verifier::when_used_as_spec(spec_from_normal_and_point)]
    pub fn from_normal_and_point(normal: &Vec3, point: &Vec3) -> (r: Option<Plane>)
        ensures
            r == Plane::spec_from_normal_and_point(normal, point),
            r is Some <==> normal.is_distinct_from_zero(),
    {
        match normal.normalized() {
            Some(unit) => Some(Plane { normal: unit, d: point.dot(&unit).neg() }),
            None => None,
        }
    }

    /// The plane through `point` with the normal `normal`, taken as it is.
    #[verifier::when_used_as_spec(spec_through)]
    pub fn through(normal: &Vec3, point: &Vec3) -> (r: Plane)
        ensures
            r == Plane::spec_through(normal, point),
    {
        Plane { normal: *normal, d: point.dot(normal).neg() }
    }
}

} // verus!
