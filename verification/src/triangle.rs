//! Containment of a point in a triangle.
use crate::fixed::magnitude;
use crate::scalar::Scalar;
use crate::vec3::Vec3;
use vstd::prelude::*;

verus! {

/// A coordinate below 2^31 raw units, the value 128, is scaled up before
/// the products of the containment test are taken.
pub const SCALE_LOW: u64 = 0x8000_0000;

/// A coordinate of 2^32 raw units, the value 256, or more is scaled down
/// before the products of the containment test are taken.
pub const SCALE_HIGH: u64 = 0x1_0000_0000;

/// The larger of two numbers.
pub open spec fn larger(a: int, b: int) -> int {
    if a >= b {
        a
    } else {
        b
    }
}

/// The greatest distance of a coordinate of the vector from zero.
pub open spec fn spec_largest_coordinate(v: &Vec3) -> int {
    larger(magnitude(v.x@), larger(magnitude(v.y@), magnitude(v.z@)))
}

/// The greatest distance of a coordinate of the three vectors from zero.
pub open spec fn spec_largest_of_three(a: &Vec3, b: &Vec3, c: &Vec3) -> int {
    larger(
        spec_largest_coordinate(a),
        larger(spec_largest_coordinate(b), spec_largest_coordinate(c)),
    )
}

/// The power of two that brings `m` to 2^31 or above by doubling; one for
/// an `m` that is there already, and for zero.
pub open spec fn up_factor(m: int) -> int
    decreases SCALE_HIGH - m,
{
    if 0 < m < SCALE_LOW {
        2 * up_factor(2 * m)
    } else {
        1
    }
}

/// The power of two that brings `m` below 2^32 by halving; one for an `m`
/// that is there already.
pub open spec fn down_factor(m: int) -> int
    decreases m,
{
    if m >= SCALE_HIGH {
        2 * down_factor(m / 2)
    } else {
        1
    }
}

/// The coordinate `x` of a set of vectors whose largest coordinate is `m`,
/// scaled by the power of two that brings `m` between 2^31 and 2^32: a
/// short coordinate is multiplied, a long one divided and rounded toward
/// zero.
pub open spec fn spec_rescale_coordinate(x: Scalar, m: int) -> Scalar {
    if m >= SCALE_HIGH {
        Scalar { raw: crate::fixed::trunc_div(x@, down_factor(m)) as i64 }
    } else {
        Scalar { raw: (x@ * up_factor(m)) as i64 }
    }
}

/// The vector with each coordinate rescaled.
pub open spec fn spec_rescale(v: &Vec3, m: int) -> Vec3 {
    Vec3 {
        x: spec_rescale_coordinate(v.x, m),
        y: spec_rescale_coordinate(v.y, m),
        z: spec_rescale_coordinate(v.z, m),
    }
}

/// A normal of the triangle's plane: the cross product of the two edges
/// from the first vertex, which are first rescaled by one power of two so
/// that their largest coordinate lies between 2^31 and 2^32 raw units. The
/// direction of the normal does not depend on the scale, and at that scale
/// the products of a small triangle do not round to nothing.
pub open spec fn spec_triangle_normal(vertices: &[Vec3; 3]) -> Vec3 {
    let ba = vertices[1].sub(vertices[0]);
    let ca = vertices[2].sub(vertices[0]);
    let m = larger(spec_largest_coordinate(&ba), spec_largest_coordinate(&ca));
    spec_rescale(&ba, m).cross(&spec_rescale(&ca, m))
}

/// Whether `p`, a point of the triangle's plane, lies inside the triangle.
///
/// The edges `ba` and `ca` from the first vertex and the offset `vp` of the
/// point from it are first rescaled by one power of two, so that their
/// largest coordinate lies between 2^31 and 2^32 raw units: the test does
/// not depend on the scale, and at that scale the products below neither
/// round to nothing nor saturate. Of the rescaled vectors, the barycentric
/// coordinates of the point are `u / den` and `v / den`, where
///
/// - `den = (ca.ca)(ba.ba) - (ca.ba)(ca.ba)`,
/// - `u = (ba.ba)(ca.vp) - (ca.ba)(ba.vp)`,
/// - `v = (ca.ca)(ba.vp) - (ca.ba)(ca.vp)`.
///
/// The point is inside when neither coordinate is negative and their sum is
/// below one. A triangle without area has `den` zero and holds no point.
pub open spec fn spec_is_point_inside_triangle(p: &Vec3, vertices: &[Vec3; 3]) -> bool {
    let m = spec_largest_of_three(
        &vertices[1].sub(vertices[0]),
        &vertices[2].sub(vertices[0]),
        &p.sub(vertices[0]),
    );
    let ba = spec_rescale(&vertices[1].sub(vertices[0]), m);
    let ca = spec_rescale(&vertices[2].sub(vertices[0]), m);
    let vp = spec_rescale(&p.sub(vertices[0]), m);
    let ba_dot_ba = ba.dot(&ba);
    let ca_dot_ba = ca.dot(&ba);
    let ca_dot_ca = ca.dot(&ca);
    let dot02 = ca.dot(&vp);
    let dot12 = ba.dot(&vp);
    let den = ca_dot_ca.mul(ba_dot_ba).sub(ca_dot_ba.mul(ca_dot_ba));
    let u = ba_dot_ba.mul(dot02).sub(ca_dot_ba.mul(dot12));
    let v = ca_dot_ca.mul(dot12).sub(ca_dot_ba.mul(dot02));
    den@ > 0 && u@ >= 0 && v@ >= 0 && u.add(v)@ < den@
}

/// The factor of doubling is at least one, and an `m` below 2^32 times
/// its factor stays below 2^32.
pub proof fn lemma_up_factor(m: int)
    requires
        0 <= m,
    ensures
        up_factor(m) >= 1,
        m < SCALE_HIGH ==> m * up_factor(m) < SCALE_HIGH,
    decreases SCALE_HIGH - m,
{
    if 0 < m < SCALE_LOW {
        lemma_up_factor(2 * m);
        assert(m * (2 * up_factor(2 * m)) == (2 * m) * up_factor(2 * m)) by (nonlinear_arith);
    } else {
        assert(m * up_factor(m) == m) by (nonlinear_arith)
            requires
                up_factor(m) == 1,
        ;
    }
}

/// The factor of halving is at least one, and at least two where there is
/// anything to halve.
pub proof fn lemma_down_factor(m: int)
    requires
        0 <= m,
    ensures
        down_factor(m) >= 1,
        m >= SCALE_HIGH ==> down_factor(m) >= 2,
    decreases m,
{
    if m >= SCALE_HIGH {
        lemma_down_factor(m / 2);
    }
}

/// Rescaling leaves the vector without length as it is.
pub proof fn lemma_rescale_zero(m: int)
    requires
        0 <= m,
    ensures
        spec_rescale(&Vec3::zero(), m) == Vec3::zero(),
{
    lemma_down_factor(m);
    let up = up_factor(m);
    let down = down_factor(m);
    assert(0int * up == 0 && 0int / down == 0) by (nonlinear_arith)
        requires
            down >= 1,
    ;
}

/// The greatest distance of a coordinate of the vector from zero.
pub fn largest_coordinate(v: &Vec3) -> (m: u64)
    ensures
        m == spec_largest_coordinate(v),
{
    let x = v.x.abs_raw();
    let y = v.y.abs_raw();
    let z = v.z.abs_raw();
    let yz = if y >= z {
        y
    } else {
        z
    };
    if x >= yz {
        x
    } else {
        yz
    }
}

/// The power of two that doubling needs.
fn up_factor_of(m: u64) -> (f: i64)
    ensures
        f == up_factor(m as int),
{
    let mut f: i64 = 1;
    let mut cur: u64 = m;
    while 0 < cur && cur < SCALE_LOW
        invariant
            up_factor(m as int) == f * up_factor(cur as int),
            1 <= f <= cur || cur == 0,
        decreases SCALE_HIGH - cur,
    {
        proof {
            assert(f * (2 * up_factor(2 * cur)) == (2 * f) * up_factor(2 * cur))
                by (nonlinear_arith);
        }
        cur = cur * 2;
        f = f * 2;
    }
    f
}

/// The power of two that halving needs.
fn down_factor_of(m: u64) -> (f: i64)
    ensures
        f == down_factor(m as int),
{
    let mut f: i64 = 1;
    let mut cur: u64 = m;
    while cur >= SCALE_HIGH
        invariant
            down_factor(m as int) == f * down_factor(cur as int),
            1 <= f,
            f * cur <= m,
        decreases cur,
    {
        proof {
            assert(f * (2 * down_factor(cur as int / 2)) == (2 * f) * down_factor(cur as int / 2))
                by (nonlinear_arith);
            assert(f < 0x1_0000_0000 && (2 * f) * (cur as int / 2) <= f * cur) by (nonlinear_arith)
                requires
                    1 <= f,
                    f * cur <= 0xffff_ffff_ffff_ffff,
                    cur >= 0x1_0000_0000,
            ;
        }
        cur = cur / 2;
        f = f * 2;
    }
    f
}

/// One coordinate rescaled.
fn rescale_coordinate(x: Scalar, m: u64, up: i64, down: i64) -> (r: Scalar)
    requires
        magnitude(x@) <= m,
        up == up_factor(m as int),
        down == down_factor(m as int),
    ensures
        r == spec_rescale_coordinate(x, m as int),
{
    proof {
        lemma_up_factor(m as int);
        lemma_down_factor(m as int);
    }
    if m >= SCALE_HIGH {
        Scalar { raw: x.raw / down }
    } else {
        assert(-0x1_0000_0000 < x.raw * up < 0x1_0000_0000) by (nonlinear_arith)
            requires
                magnitude(x.raw as int) <= m,
                m * up < 0x1_0000_0000,
                up >= 1,
        ;
        Scalar { raw: x.raw * up }
    }
}

/// A vector rescaled.
fn rescale(v: &Vec3, m: u64, up: i64, down: i64) -> (r: Vec3)
    requires
        spec_largest_coordinate(v) <= m,
        up == up_factor(m as int),
        down == down_factor(m as int),
    ensures
        r == spec_rescale(v, m as int),
{
    Vec3 {
        x: rescale_coordinate(v.x, m, up, down),
        y: rescale_coordinate(v.y, m, up, down),
        z: rescale_coordinate(v.z, m, up, down),
    }
}

/// A normal of the triangle's plane: the cross product of the two edges
/// from the first vertex, rescaled.
#[verifier::when_used_as_spec(spec_triangle_normal)]
pub fn triangle_normal(vertices: &[Vec3; 3]) -> (r: Vec3)
    ensures
        r == spec_triangle_normal(vertices),
{
    let ba = vertices[1].sub(vertices[0]);
    let ca = vertices[2].sub(vertices[0]);
    let mb = largest_coordinate(&ba);
    let mc = largest_coordinate(&ca);
    let m = if mb >= mc {
        mb
    } else {
        mc
    };
    let up = up_factor_of(m);
    let down = down_factor_of(m);
    rescale(&ba, m, up, down).cross(&rescale(&ca, m, up, down))
}

/// Whether `p`, a point of the triangle's plane, lies inside the triangle.
#[verifier::when_used_as_spec(spec_is_point_inside_triangle)]
pub fn is_point_inside_triangle(p: &Vec3, vertices: &[Vec3; 3]) -> (r: bool)
    ensures
        r == spec_is_point_inside_triangle(p, vertices),
{
    let ba = vertices[1].sub(vertices[0]);
    let ca = vertices[2].sub(vertices[0]);
    let vp = p.sub(vertices[0]);
    let mb = largest_coordinate(&ba);
    let mc = largest_coordinate(&ca);
    let mp = largest_coordinate(&vp);
    let mcp = if mc >= mp {
        mc
    } else {
        mp
    };
    let m = if mb >= mcp {
        mb
    } else {
        mcp
    };
    let up = up_factor_of(m);
    let down = down_factor_of(m);
    let ba = rescale(&ba, m, up, down);
    let ca = rescale(&ca, m, up, down);
    let vp = rescale(&vp, m, up, down);
    let ba_dot_ba = ba.dot(&ba);
    let ca_dot_ba = ca.dot(&ba);
    let ca_dot_ca = ca.dot(&ca);
    let dot02 = ca.dot(&vp);
    let dot12 = ba.dot(&vp);
    let den = ca_dot_ca.mul(ba_dot_ba).sub(ca_dot_ba.mul(ca_dot_ba));
    let u = ba_dot_ba.mul(dot02).sub(ca_dot_ba.mul(dot12));
    let v = ca_dot_ca.mul(dot12).sub(ca_dot_ba.mul(dot02));
    den.gt(Scalar::zero()) && u.ge(Scalar::zero()) && v.ge(Scalar::zero()) && u.add(v).lt(den)
}

} // verus!
