//! Three-dimensional vectors over the fixed-point scalar.
use crate::fixed::{
    lemma_fx_len_counts, lemma_fx_mul_commutes, lemma_fx_square_not_negative,
    lemma_fx_square_positive, magnitude,
};
use crate::scalar::Scalar;
use vstd::prelude::*;

verus! {

/// A vector, or a point, in space.
#[derive(Clone, Copy, Debug, PartialEq, Eq, Structural)]
pub struct Vec3 {
    pub x: Scalar,
    pub y: Scalar,
    pub z: Scalar,
}

impl Vec3 {
    pub open spec fn spec_new(x: Scalar, y: Scalar, z: Scalar) -> Vec3 {
        Vec3 { x, y, z }
    }

    pub open spec fn spec_zero() -> Vec3 {
        Vec3 { x: Scalar::zero(), y: Scalar::zero(), z: Scalar::zero() }
    }

    pub open spec fn spec_add(self, rhs: Vec3) -> Vec3 {
        Vec3 { x: self.x.add(rhs.x), y: self.y.add(rhs.y), z: self.z.add(rhs.z) }
    }

    pub open spec fn spec_sub(self, rhs: Vec3) -> Vec3 {
        Vec3 { x: self.x.sub(rhs.x), y: self.y.sub(rhs.y), z: self.z.sub(rhs.z) }
    }

    pub open spec fn spec_neg(self) -> Vec3 {
        Vec3 { x: self.x.neg(), y: self.y.neg(), z: self.z.neg() }
    }

    pub open spec fn spec_scale(&self, k: Scalar) -> Vec3 {
        Vec3 { x: self.x.mul(k), y: self.y.mul(k), z: self.z.mul(k) }
    }

    pub open spec fn spec_dot(&self, other: &Vec3) -> Scalar {
        self.x.mul(other.x).add(self.y.mul(other.y)).add(self.z.mul(other.z))
    }

    pub open spec fn spec_cross(&self, other: &Vec3) -> Vec3 {
        Vec3 {
            x: self.y.mul(other.z).sub(self.z.mul(other.y)),
            y: self.z.mul(other.x).sub(self.x.mul(other.z)),
            z: self.x.mul(other.y).sub(self.y.mul(other.x)),
        }
    }

    pub open spec fn spec_sqr_len(&self) -> Scalar {
        self.dot(self)
    }

    pub open spec fn spec_len(&self) -> Scalar {
        Scalar::length(self.x, self.y, self.z)
    }

    pub open spec fn spec_sqr_distance(&self, other: &Vec3) -> Scalar {
        self.sub(*other).sqr_len()
    }

    pub open spec fn spec_normalized(&self) -> Option<Vec3> {
        let len = self.len();
        if len.ge(Scalar::epsilon()) {
            Some(Vec3 { x: self.x.div(len), y: self.y.div(len), z: self.z.div(len) })
        } else {
            None
        }
    }

    /// The vector is at least as long as the smallest length that counts
    /// as non-zero, 2^-23: the squares of its coordinates, in raw units,
    /// sum to at least four.
    pub open spec fn is_distinct_from_zero(self) -> bool {
        self.x@ * self.x@ + self.y@ * self.y@ + self.z@ * self.z@ >= 4
    }

    /// A dot product does not depend on the order of the two vectors.
    pub proof fn lemma_dot_commutes(self, other: Vec3)
        ensures
            self.dot(&other) == other.dot(&self),
    {
        lemma_fx_mul_commutes(self.x@, other.x@);
        lemma_fx_mul_commutes(self.y@, other.y@);
        lemma_fx_mul_commutes(self.z@, other.z@);
    }

    /// A squared length is not negative, and it is positive exactly when
    /// some coordinate is at least 2^-12 away from zero: the square of
    /// anything nearer rounds to zero.
    pub proof fn lemma_sqr_len(self)
        ensures
            self.sqr_len()@ >= 0,
            self.sqr_len()@ > 0 <==> (magnitude(self.x@) >= 4096 || magnitude(self.y@) >= 4096
                || magnitude(self.z@) >= 4096),
    {
        lemma_fx_square_not_negative(self.x@);
        lemma_fx_square_not_negative(self.y@);
        lemma_fx_square_not_negative(self.z@);
        lemma_fx_square_positive(self.x@);
        lemma_fx_square_positive(self.y@);
        lemma_fx_square_positive(self.z@);
    }

    /// A vector can be normalized exactly when it is at least 2^-23 long.
    pub proof fn lemma_normalized_present(self)
        ensures
            self.len()@ >= 0,
            self.len().ge(Scalar::epsilon()) <==> self.is_distinct_from_zero(),
            self.normalized() is Some <==> self.is_distinct_from_zero(),
    {
        lemma_fx_len_counts(self.x@, self.y@, self.z@);
    }

    /// The vector with the given coordinates.
    #[verifier::when_used_as_spec(spec_new)]
    pub fn new(x: Scalar, y: Scalar, z: Scalar) -> (r: Vec3)
        ensures
            r == Vec3::spec_new(x, y, z),
    {
        Vec3 { x, y, z }
    }

    /// The origin.
    #[verifier::when_used_as_spec(spec_zero)]
    pub fn zero() -> (r: Vec3)
        ensures
            r == Vec3::spec_zero(),
    {
        Vec3 { x: Scalar::zero(), y: Scalar::zero(), z: Scalar::zero() }
    }

    /// Sum, coordinate by coordinate.
    #[verifier::when_used_as_spec(spec_add)]
    pub fn add(self, rhs: Vec3) -> (r: Vec3)
        ensures
            r == self.spec_add(rhs),
    {
        Vec3 { x: self.x.add(rhs.x), y: self.y.add(rhs.y), z: self.z.add(rhs.z) }
    }

    /// Difference, coordinate by coordinate.
    #[verifier::when_used_as_spec(spec_sub)]
    pub fn sub(self, rhs: Vec3) -> (r: Vec3)
        ensures
            r == self.spec_sub(rhs),
    {
        Vec3 { x: self.x.sub(rhs.x), y: self.y.sub(rhs.y), z: self.z.sub(rhs.z) }
    }

    /// The opposite vector.
    #[verifier::when_used_as_spec(spec_neg)]
    pub fn neg(self) -> (r: Vec3)
        ensures
            r == self.spec_neg(),
    {
        Vec3 { x: self.x.neg(), y: self.y.neg(), z: self.z.neg() }
    }

    /// The vector stretched by the factor `k`.
    #[verifier::when_used_as_spec(spec_scale)]
    pub fn scale(&self, k: Scalar) -> (r: Vec3)
        ensures
            r == self.spec_scale(k),
    {
        Vec3 { x: self.x.mul(k), y: self.y.mul(k), z: self.z.mul(k) }
    }

    /// Dot product: the three products summed in the order x, y, z.
    #[verifier::when_used_as_spec(spec_dot)]
    pub fn dot(&self, other: &Vec3) -> (r: Scalar)
        ensures
            r == self.spec_dot(other),
    {
        self.x.mul(other.x).add(self.y.mul(other.y)).add(self.z.mul(other.z))
    }

    /// Cross product.
    #[verifier::when_used_as_spec(spec_cross)]
    pub fn cross(&self, other: &Vec3) -> (r: Vec3)
        ensures
            r == self.spec_cross(other),
    {
        Vec3 {
            x: self.y.mul(other.z).sub(self.z.mul(other.y)),
            y: self.z.mul(other.x).sub(self.x.mul(other.z)),
            z: self.x.mul(other.y).sub(self.y.mul(other.x)),
        }
    }

    /// Squared length: each square rounded to the scalar's precision.
    #[verifier::when_used_as_spec(spec_sqr_len)]
    pub fn sqr_len(&self) -> (r: Scalar)
        ensures
            r == self.spec_sqr_len(),
    {
        self.dot(self)
    }

    /// Length: the square root of the sum of the squared coordinates,
    /// rounded down. The sum is taken exactly, so that a short vector keeps
    /// its length; `sqr_len` rounds each square.
    #[verifier::when_used_as_spec(spec_len)]
    pub fn len(&self) -> (r: Scalar)
        ensures
            r == self.spec_len(),
    {
        Scalar::length(self.x, self.y, self.z)
    }

    /// Squared distance between two points.
    #[verifier::when_used_as_spec(spec_sqr_distance)]
    pub fn sqr_distance(&self, other: &Vec3) -> (r: Scalar)
        ensures
            r == self.spec_sqr_distance(other),
    {
        self.sub(*other).sqr_len()
    }

    /// The vector divided by its length. Absent when the length is below
    /// the smallest length that counts as non-zero.
    #[verifier::when_used_as_spec(spec_normalized)]
    pub fn normalized(&self) -> (r: Option<Vec3>)
        ensures
            r == self.spec_normalized(),
            r is Some <==> self.is_distinct_from_zero(),
    {
        proof {
            self.lemma_normalized_present();
        }
        let len = self.len();
        if len.ge(Scalar::epsilon()) {
            Some(Vec3 { x: self.x.div(len), y: self.y.div(len), z: self.z.div(len) })
        } else {
            None
        }
    }
}

impl Default for Vec3 {
    /// The origin.
    fn default() -> (r: Vec3)
        ensures
            r == Vec3::zero(),
    {
        Vec3::zero()
    }
}

} // verus!
