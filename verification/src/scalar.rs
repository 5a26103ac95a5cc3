//! The number type of the library: a saturating fixed-point scalar.
use crate::fixed::{
    fx_add, fx_div, fx_len, fx_mul, fx_neg, fx_sqrt, fx_sub, is_int_sqrt, lemma_int_sqrt_is,
    lemma_trunc_div_product, lemma_trunc_div_quotient, magnitude, sat, EPSILON_RAW, MAX_RAW,
    MIN_RAW, ONE_RAW,
};
use vstd::prelude::*;

verus! {

/// A signed fixed-point number with 24 fractional bits.
///
/// `raw` counts units of 2^-24. The largest and the smallest raw value stand
/// for plus and minus infinity; arithmetic saturates at them.
#[derive(Clone, Copy, Debug, PartialEq, Eq, PartialOrd, Ord, Hash, Structural)]
pub struct Scalar {
    pub raw: i64,
}

impl View for Scalar {
    type V = int;

    /// The number as a count of raw units.
    open spec fn view(&self) -> int {
        self.raw as int
    }
}

/// Distance of a raw value from zero.
fn magnitude_of(x: i64) -> (m: u128)
    ensures
        m == magnitude(x as int),
        m <= 0x8000_0000_0000_0000,
{
    if x < 0 {
        (-(x as i128)) as u128
    } else {
        x as u128
    }
}

/// The scalar with the given sign and magnitude, clamped to the raw range.
fn from_sign_magnitude(negative: bool, m: u128) -> (r: Scalar)
    ensures
        r@ == sat(
            if negative {
                -(m as int)
            } else {
                m as int
            },
        ),
{
    if negative {
        if m >= 0x8000_0000_0000_0000 {
            Scalar { raw: MIN_RAW }
        } else {
            Scalar { raw: -(m as i64) }
        }
    } else {
        if m > 0x7fff_ffff_ffff_ffff {
            Scalar { raw: MAX_RAW }
        } else {
            Scalar { raw: m as i64 }
        }
    }
}

/// The square of a raw value is the square of its magnitude, and fits in
/// 126 bits.
proof fn lemma_square_of_magnitude(x: int)
    requires
        MIN_RAW <= x <= MAX_RAW,
    ensures
        magnitude(x) * magnitude(x) == x * x,
        0 <= x * x <= 0x4000_0000_0000_0000_0000_0000_0000_0000,
{
    let m = magnitude(x);
    assert(m * m == x * x && 0 <= m * m <= 0x4000_0000_0000_0000_0000_0000_0000_0000)
        by (nonlinear_arith)
        requires
            (m == x || m == -x),
            0 <= m <= 0x8000_0000_0000_0000,
    ;
}

/// Integer square root by bisection.
fn isqrt(n: u128) -> (r: u128)
    ensures
        is_int_sqrt(n as int, r as int),
        r < 0x1_0000_0000_0000_0000,
{
    let mut lo: u128 = 0;
    let mut hi: u128 = 0x1_0000_0000_0000_0000;
    assert(0x1_0000_0000_0000_0000int * 0x1_0000_0000_0000_0000int
        == 0x1_0000_0000_0000_0000_0000_0000_0000_0000int) by (nonlinear_arith);
    while hi - lo > 1
        invariant
            lo < hi <= 0x1_0000_0000_0000_0000,
            lo * lo <= n < hi * hi,
        decreases hi - lo,
    {
        let mid: u128 = lo + (hi - lo) / 2;
        assert(mid * mid <= 0xffff_ffff_ffff_ffff_ffff_ffff_ffff_ffffu128) by (nonlinear_arith)
            requires
                mid <= 0xffff_ffff_ffff_ffffu128,
        ;
        if mid * mid <= n {
            lo = mid;
        } else {
            hi = mid;
        }
    }
    lo
}

impl Scalar {
    /// The scalar that the integer `x` clamps to.
    pub open spec fn saturate(x: int) -> Scalar {
        Scalar { raw: sat(x) as i64 }
    }

    pub open spec fn spec_zero() -> Scalar {
        Scalar { raw: 0 }
    }

    pub open spec fn spec_one() -> Scalar {
        Scalar { raw: ONE_RAW }
    }

    pub open spec fn spec_max_value() -> Scalar {
        Scalar { raw: MAX_RAW }
    }

    pub open spec fn spec_min_value() -> Scalar {
        Scalar { raw: MIN_RAW }
    }

    pub open spec fn spec_epsilon() -> Scalar {
        Scalar { raw: EPSILON_RAW }
    }

    pub open spec fn spec_from_int(v: i32) -> Scalar {
        Scalar { raw: (v * ONE_RAW) as i64 }
    }

    pub open spec fn spec_add(self, rhs: Scalar) -> Scalar {
        Scalar::saturate(fx_add(self@, rhs@))
    }

    pub open spec fn spec_sub(self, rhs: Scalar) -> Scalar {
        Scalar::saturate(fx_sub(self@, rhs@))
    }

    pub open spec fn spec_neg(self) -> Scalar {
        Scalar::saturate(fx_neg(self@))
    }

    pub open spec fn spec_mul(self, rhs: Scalar) -> Scalar {
        Scalar::saturate(fx_mul(self@, rhs@))
    }

    pub open spec fn spec_div(self, rhs: Scalar) -> Scalar {
        Scalar::saturate(fx_div(self@, rhs@))
    }

    pub open spec fn spec_sqrt(self) -> Scalar {
        Scalar::saturate(fx_sqrt(self@))
    }

    pub open spec fn spec_length(x: Scalar, y: Scalar, z: Scalar) -> Scalar {
        Scalar::saturate(fx_len(x@, y@, z@))
    }

    pub open spec fn spec_from_ratio(num: i32, den: i32) -> Scalar {
        Scalar::spec_from_int(num).spec_div(Scalar::spec_from_int(den))
    }

    pub open spec fn spec_lt(self, rhs: Scalar) -> bool {
        self@ < rhs@
    }

    pub open spec fn spec_le(self, rhs: Scalar) -> bool {
        self@ <= rhs@
    }

    pub open spec fn spec_gt(self, rhs: Scalar) -> bool {
        self@ > rhs@
    }

    pub open spec fn spec_ge(self, rhs: Scalar) -> bool {
        self@ >= rhs@
    }

    pub open spec fn spec_min(self, rhs: Scalar) -> Scalar {
        if rhs@ < self@ {
            rhs
        } else {
            self
        }
    }

    pub open spec fn spec_max(self, rhs: Scalar) -> Scalar {
        if rhs@ > self@ {
            rhs
        } else {
            self
        }
    }

    /// The scalar with the given raw value.
    pub fn from_raw(raw: i64) -> (r: Scalar)
        ensures
            r@ == raw,
    {
        Scalar { raw }
    }

    /// The raw value.
    pub fn to_raw(self) -> (r: i64)
        ensures
            r == self@,
    {
        self.raw
    }

    /// Zero.
    #[verifier::when_used_as_spec(spec_zero)]
    pub fn zero() -> (r: Scalar)
        ensures
            r == Scalar::spec_zero(),
    {
        Scalar { raw: 0 }
    }

    /// One.
    #[verifier::when_used_as_spec(spec_one)]
    pub fn one() -> (r: Scalar)
        ensures
            r == Scalar::spec_one(),
    {
        Scalar { raw: ONE_RAW }
    }

    /// Plus infinity: the largest scalar.
    #[verifier::when_used_as_spec(spec_max_value)]
    pub fn max_value() -> (r: Scalar)
        ensures
            r == Scalar::spec_max_value(),
    {
        Scalar { raw: MAX_RAW }
    }

    /// Minus infinity: the smallest scalar.
    #[verifier::when_used_as_spec(spec_min_value)]
    pub fn min_value() -> (r: Scalar)
        ensures
            r == Scalar::spec_min_value(),
    {
        Scalar { raw: MIN_RAW }
    }

    /// The smallest length that counts as non-zero.
    #[verifier::when_used_as_spec(spec_epsilon)]
    pub fn epsilon() -> (r: Scalar)
        ensures
            r == Scalar::spec_epsilon(),
    {
        Scalar { raw: EPSILON_RAW }
    }

    /// The whole number `v`.
    #[verifier::when_used_as_spec(spec_from_int)]
    pub fn from_int(v: i32) -> (r: Scalar)
        ensures
            r == Scalar::spec_from_int(v),
            r@ == v * ONE_RAW,
    {
        Scalar { raw: (v as i64) * ONE_RAW }
    }

    /// The fraction `num / den`, rounded toward zero.
    #[verifier::when_used_as_spec(spec_from_ratio)]
    pub fn from_ratio(num: i32, den: i32) -> (r: Scalar)
        ensures
            r == Scalar::spec_from_ratio(num, den),
    {
        Scalar::from_int(num).div(Scalar::from_int(den))
    }

    /// Saturating sum.
    #[verifier::when_used_as_spec(spec_add)]
    pub fn add(self, rhs: Scalar) -> (r: Scalar)
        ensures
            r == self.spec_add(rhs),
            r@ == fx_add(self@, rhs@),
    {
        let wide: i128 = self.raw as i128 + rhs.raw as i128;
        if wide > MAX_RAW as i128 {
            Scalar { raw: MAX_RAW }
        } else if wide < MIN_RAW as i128 {
            Scalar { raw: MIN_RAW }
        } else {
            Scalar { raw: wide as i64 }
        }
    }

    /// Saturating difference.
    #[verifier::when_used_as_spec(spec_sub)]
    pub fn sub(self, rhs: Scalar) -> (r: Scalar)
        ensures
            r == self.spec_sub(rhs),
            r@ == fx_sub(self@, rhs@),
    {
        let wide: i128 = self.raw as i128 - rhs.raw as i128;
        if wide > MAX_RAW as i128 {
            Scalar { raw: MAX_RAW }
        } else if wide < MIN_RAW as i128 {
            Scalar { raw: MIN_RAW }
        } else {
            Scalar { raw: wide as i64 }
        }
    }

    /// Saturating negation: the negative of minus infinity is plus infinity.
    #[verifier::when_used_as_spec(spec_neg)]
    pub fn neg(self) -> (r: Scalar)
        ensures
            r == self.spec_neg(),
            r@ == fx_neg(self@),
    {
        if self.raw == MIN_RAW {
            Scalar { raw: MAX_RAW }
        } else {
            Scalar { raw: -self.raw }
        }
    }

    /// Product, rounded toward zero, saturating.
    #[verifier::when_used_as_spec(spec_mul)]
    pub fn mul(self, rhs: Scalar) -> (r: Scalar)
        ensures
            r == self.spec_mul(rhs),
            r@ == fx_mul(self@, rhs@),
    {
        let negative: bool = (self.raw < 0) != (rhs.raw < 0);
        let ma: u128 = magnitude_of(self.raw);
        let mb: u128 = magnitude_of(rhs.raw);
        assert(ma * mb <= 0x4000_0000_0000_0000_0000_0000_0000_0000u128) by (nonlinear_arith)
            requires
                ma <= 0x8000_0000_0000_0000u128,
                mb <= 0x8000_0000_0000_0000u128,
        ;
        let q: u128 = (ma * mb) / 16777216;
        proof {
            lemma_trunc_div_product(self@, rhs@, ONE_RAW as int);
        }
        from_sign_magnitude(negative, q)
    }

    /// Quotient, rounded toward zero, saturating. Division by zero gives the
    /// infinity of the dividend's sign, and zero for zero by zero.
    #[verifier::when_used_as_spec(spec_div)]
    pub fn div(self, rhs: Scalar) -> (r: Scalar)
        ensures
            r == self.spec_div(rhs),
            r@ == fx_div(self@, rhs@),
    {
        if rhs.raw == 0 {
            if self.raw > 0 {
                Scalar { raw: MAX_RAW }
            } else if self.raw < 0 {
                Scalar { raw: MIN_RAW }
            } else {
                Scalar { raw: 0 }
            }
        } else {
            let negative: bool = (self.raw < 0) != (rhs.raw < 0);
            let ma: u128 = magnitude_of(self.raw);
            let mb: u128 = magnitude_of(rhs.raw);
            let q: u128 = (ma * 16777216) / mb;
            proof {
                lemma_trunc_div_quotient(self@ * ONE_RAW, rhs@);
            }
            from_sign_magnitude(negative, q)
        }
    }

    /// Square root, rounded down. Zero for a scalar that is not positive.
    #[verifier::when_used_as_spec(spec_sqrt)]
    pub fn sqrt(self) -> (r: Scalar)
        ensures
            r == self.spec_sqrt(),
            r@ == fx_sqrt(self@),
    {
        if self.raw <= 0 {
            Scalar { raw: 0 }
        } else {
            let n: u128 = (self.raw as u128) * 16777216;
            let root: u128 = isqrt(n);
            proof {
                lemma_int_sqrt_is(n as int, root as int);
                if root >= 0x1000_0000_0000 {
                    assert(root * root >= 0x100_0000_0000_0000_0000_0000) by (nonlinear_arith)
                        requires
                            root >= 0x1000_0000_0000,
                    ;
                }
            }
            Scalar { raw: root as i64 }
        }
    }

    /// Length of the vector with the coordinates `x`, `y` and `z`: the
    /// square root of the sum of their squares, rounded down, saturating.
    /// The squares and their sum are taken exactly, at full width.
    #[verifier::when_used_as_spec(spec_length)]
    pub fn length(x: Scalar, y: Scalar, z: Scalar) -> (r: Scalar)
        ensures
            r == Scalar::spec_length(x, y, z),
            r@ == fx_len(x@, y@, z@),
    {
        let mx: u128 = magnitude_of(x.raw);
        let my: u128 = magnitude_of(y.raw);
        let mz: u128 = magnitude_of(z.raw);
        proof {
            lemma_square_of_magnitude(x@);
            lemma_square_of_magnitude(y@);
            lemma_square_of_magnitude(z@);
        }
        let sum: u128 = mx * mx + my * my + mz * mz;
        let root: u128 = isqrt(sum);
        proof {
            lemma_int_sqrt_is(sum as int, root as int);
        }
        if root > 0x7fff_ffff_ffff_ffff {
            Scalar { raw: MAX_RAW }
        } else {
            Scalar { raw: root as i64 }
        }
    }

    /// Distance from zero, in raw units.
    pub fn abs_raw(self) -> (m: u64)
        ensures
            m == magnitude(self@),
    {
        if self.raw < 0 {
            (-(self.raw as i128)) as u64
        } else {
            self.raw as u64
        }
    }

    /// Less than.
    #[verifier::when_used_as_spec(spec_lt)]
    pub fn lt(self, rhs: Scalar) -> (r: bool)
        ensures
            r == self.spec_lt(rhs),
    {
        self.raw < rhs.raw
    }

    /// Less than or equal.
    #[verifier::when_used_as_spec(spec_le)]
    pub fn le(self, rhs: Scalar) -> (r: bool)
        ensures
            r == self.spec_le(rhs),
    {
        self.raw <= rhs.raw
    }

    /// Greater than.
    #[verifier::when_used_as_spec(spec_gt)]
    pub fn gt(self, rhs: Scalar) -> (r: bool)
        ensures
            r == self.spec_gt(rhs),
    {
        self.raw > rhs.raw
    }

    /// Greater than or equal.
    #[verifier::when_used_as_spec(spec_ge)]
    pub fn ge(self, rhs: Scalar) -> (r: bool)
        ensures
            r == self.spec_ge(rhs),
    {
        self.raw >= rhs.raw
    }

    /// The smaller of two scalars.
    #[verifier::when_used_as_spec(spec_min)]
    pub fn min(self, rhs: Scalar) -> (r: Scalar)
        ensures
            r == self.spec_min(rhs),
    {
        if rhs.raw < self.raw {
            rhs
        } else {
            self
        }
    }

    /// The larger of two scalars.
    #[verifier::when_used_as_spec(spec_max)]
    pub fn max(self, rhs: Scalar) -> (r: Scalar)
        ensures
            r == self.spec_max(rhs),
    {
        if rhs.raw > self.raw {
            rhs
        } else {
            self
        }
    }
}

} // verus!

