//! The arithmetic model: signed fixed-point numbers with 24 fractional bits.
//!
//! A number is written as a count of raw units, each worth 2^-24. Every
//! operation is the exact integer result, rounded toward zero where it is not a
//! whole number of units, and then clamped to the 64-bit range. The two ends of
//! that range stand for the infinities: a result that is too large sticks to
//! the nearest end instead of wrapping around.
use vstd::arithmetic::div_mod::{
    lemma_div_by_multiple, lemma_div_is_ordered, lemma_div_pos_is_pos, lemma_fundamental_div_mod,
    lemma_mod_bound,
};
use vstd::prelude::*;

verus! {

/// Raw units in the value one.
pub const ONE_RAW: i64 = 16777216;

/// The largest raw value; it stands for plus infinity.
pub const MAX_RAW: i64 = 9223372036854775807;

/// The smallest raw value; it stands for minus infinity.
pub const MIN_RAW: i64 = -9223372036854775808;

/// The smallest length that counts as non-zero: 2^-23.
pub const EPSILON_RAW: i64 = 2;

/// Clamps an integer to the raw range.
pub open spec fn sat(x: int) -> int {
    if x < MIN_RAW {
        MIN_RAW as int
    } else if x > MAX_RAW {
        MAX_RAW as int
    } else {
        x
    }
}

/// Distance from zero.
pub open spec fn magnitude(x: int) -> int {
    if x < 0 {
        -x
    } else {
        x
    }
}

/// Quotient rounded toward zero. Meaningful for a non-zero divisor.
pub open spec fn trunc_div(n: int, d: int) -> int
    recommends
        d != 0,
{
    if (n >= 0) == (d > 0) {
        magnitude(n) / magnitude(d)
    } else {
        -(magnitude(n) / magnitude(d))
    }
}

/// Saturating sum.
pub open spec fn fx_add(a: int, b: int) -> int {
    sat(a + b)
}

/// Saturating difference.
pub open spec fn fx_sub(a: int, b: int) -> int {
    sat(a - b)
}

/// Saturating negation.
pub open spec fn fx_neg(a: int) -> int {
    sat(-a)
}

/// Product of two fixed-point numbers, rounded toward zero, saturating.
pub open spec fn fx_mul(a: int, b: int) -> int {
    sat(trunc_div(a * b, ONE_RAW as int))
}

/// Quotient of two fixed-point numbers, rounded toward zero, saturating.
///
/// Division by zero follows the sign of the dividend: a positive dividend
/// gives plus infinity, a negative one minus infinity, and zero gives zero.
pub open spec fn fx_div(a: int, b: int) -> int {
    if b == 0 {
        if a > 0 {
            MAX_RAW as int
        } else if a < 0 {
            MIN_RAW as int
        } else {
            0
        }
    } else {
        sat(trunc_div(a * ONE_RAW, b))
    }
}

/// `r` is the integer square root of `n`: the largest integer whose square
/// does not exceed `n`.
pub open spec fn is_int_sqrt(n: int, r: int) -> bool {
    0 <= r && r * r <= n < (r + 1) * (r + 1)
}

/// The integer square root of `n`.
pub open spec fn int_sqrt(n: int) -> int {
    choose|r: int| is_int_sqrt(n, r)
}

/// Square root of a fixed-point number, rounded down. Zero for a number that
/// is not positive.
pub open spec fn fx_sqrt(a: int) -> int {
    if a <= 0 {
        0
    } else {
        int_sqrt(a * ONE_RAW)
    }
}

/// Length of the vector with the coordinates `x`, `y` and `z`: the square
/// root of the sum of their squares, rounded down, saturating. The squares
/// and their sum are exact, so that the only rounding is that of the root.
pub open spec fn fx_len(x: int, y: int, z: int) -> int {
    sat(int_sqrt(x * x + y * y + z * z))
}

/// An integer has at most one integer square root.
pub proof fn lemma_int_sqrt_unique(n: int, r: int, s: int)
    requires
        is_int_sqrt(n, r),
        is_int_sqrt(n, s),
    ensures
        r == s,
{
    if r < s {
        assert((r + 1) * (r + 1) <= s * s) by (nonlinear_arith)
            requires
                0 <= r,
                r + 1 <= s,
        ;
    } else if s < r {
        assert((s + 1) * (s + 1) <= r * r) by (nonlinear_arith)
            requires
                0 <= s,
                s + 1 <= r,
        ;
    }
}

/// A witness of the defining inequalities is the integer square root.
pub proof fn lemma_int_sqrt_is(n: int, r: int)
    requires
        is_int_sqrt(n, r),
    ensures
        int_sqrt(n) == r,
{
    lemma_int_sqrt_unique(n, r, int_sqrt(n));
}

/// The sign and size of a product, as the multiplication routine computes
/// them from the magnitudes of the factors.
pub proof fn lemma_trunc_div_product(a: int, b: int, d: int)
    requires
        d > 0,
    ensures
        trunc_div(a * b, d) == if (a < 0) != (b < 0) {
            -((magnitude(a) * magnitude(b)) / d)
        } else {
            (magnitude(a) * magnitude(b)) / d
        },
{
    assert(magnitude(a * b) == magnitude(a) * magnitude(b)) by (nonlinear_arith);
    assert(((a < 0) != (b < 0)) ==> a * b <= 0) by (nonlinear_arith);
    assert(((a < 0) == (b < 0)) ==> a * b >= 0) by (nonlinear_arith);
}

/// The sign and size of a quotient, as the division routine computes them
/// from the magnitudes of dividend and divisor.
pub proof fn lemma_trunc_div_quotient(n: int, d: int)
    requires
        d != 0,
    ensures
        trunc_div(n, d) == if (n < 0) != (d < 0) {
            -(magnitude(n) / magnitude(d))
        } else {
            magnitude(n) / magnitude(d)
        },
{
}

/// Changing the sign of the divisor changes the sign of the quotient.
pub proof fn lemma_trunc_div_neg_divisor(n: int, d: int)
    requires
        d != 0,
    ensures
        trunc_div(n, -d) == -trunc_div(n, d),
{
    if n == 0 {
        lemma_trunc_div_quotient(0, d);
        lemma_trunc_div_quotient(0, -d);
    }
}

/// Over a positive divisor, rounding toward zero keeps the order of the
/// dividends.
pub proof fn lemma_trunc_div_monotone(n1: int, n2: int, d: int)
    requires
        n1 <= n2,
        d > 0,
    ensures
        trunc_div(n1, d) <= trunc_div(n2, d),
{
    if n1 >= 0 {
        lemma_div_is_ordered(n1, n2, d);
    } else if n2 >= 0 {
        lemma_div_pos_is_pos(-n1, d);
        lemma_div_pos_is_pos(n2, d);
    } else {
        lemma_div_is_ordered(-n2, -n1, d);
    }
}

/// Over a negative divisor, rounding toward zero reverses the order of the
/// dividends.
pub proof fn lemma_trunc_div_antitone(n1: int, n2: int, d: int)
    requires
        n1 <= n2,
        d < 0,
    ensures
        trunc_div(n1, d) >= trunc_div(n2, d),
{
    lemma_trunc_div_monotone(n1, n2, -d);
    lemma_trunc_div_neg_divisor(n1, -d);
    lemma_trunc_div_neg_divisor(n2, -d);
}

/// A quotient has the sign that the signs of dividend and divisor give it,
/// or is zero.
pub proof fn lemma_trunc_div_sign(n: int, d: int)
    requires
        d != 0,
    ensures
        (n >= 0) == (d > 0) ==> trunc_div(n, d) >= 0,
        (n <= 0) == (d > 0) ==> trunc_div(n, d) <= 0,
{
    lemma_div_pos_is_pos(magnitude(n), magnitude(d));
    lemma_trunc_div_quotient(n, d);
}

/// Over a positive divisor, division keeps the order of the dividends.
pub proof fn lemma_fx_div_monotone(a1: int, a2: int, b: int)
    requires
        a1 <= a2,
        b > 0,
    ensures
        fx_div(a1, b) <= fx_div(a2, b),
{
    lemma_trunc_div_monotone(a1 * ONE_RAW, a2 * ONE_RAW, b);
}

/// Over a negative divisor, division reverses the order of the dividends.
pub proof fn lemma_fx_div_antitone(a1: int, a2: int, b: int)
    requires
        a1 <= a2,
        b < 0,
    ensures
        fx_div(a1, b) >= fx_div(a2, b),
{
    lemma_trunc_div_antitone(a1 * ONE_RAW, a2 * ONE_RAW, b);
}

/// A quotient of two numbers of unlike sign is not positive, and one of two
/// numbers of like sign is not negative.
pub proof fn lemma_fx_div_sign(a: int, b: int)
    requires
        b != 0,
    ensures
        (a >= 0) == (b > 0) ==> fx_div(a, b) >= 0,
        (a <= 0) == (b > 0) ==> fx_div(a, b) <= 0,
{
    lemma_trunc_div_sign(a * ONE_RAW, b);
}

/// A dividend at least as far from zero as the divisor, on the same side,
/// gives a quotient of at least one.
pub proof fn lemma_fx_div_at_least_one(a: int, b: int)
    requires
        0 < b <= a || a <= b < 0,
    ensures
        fx_div(a, b) >= ONE_RAW,
{
    let m = magnitude(b);
    lemma_trunc_div_quotient(a * ONE_RAW, b);
    lemma_div_by_multiple(ONE_RAW as int, m);
    lemma_div_is_ordered(ONE_RAW * m, magnitude(a * ONE_RAW), m);
}

/// Every integer that is not negative has an integer square root.
pub proof fn lemma_int_sqrt_exists(n: int)
    requires
        n >= 0,
    ensures
        exists|r: int| is_int_sqrt(n, r),
    decreases n,
{
    if n == 0 {
        assert(is_int_sqrt(0, 0));
    } else {
        let m = n - 1;
        lemma_int_sqrt_exists(m);
        let r = choose|r: int| is_int_sqrt(m, r);
        if n < (r + 1) * (r + 1) {
            assert(is_int_sqrt(n, r));
        } else {
            assert((r + 1) * (r + 1) < (r + 2) * (r + 2)) by (nonlinear_arith)
                requires
                    0 <= r,
            ;
            assert(is_int_sqrt(n, r + 1));
        }
    }
}

/// The integer square root of `n` is the largest integer whose square does
/// not exceed `n`.
pub proof fn lemma_int_sqrt(n: int)
    requires
        n >= 0,
    ensures
        is_int_sqrt(n, int_sqrt(n)),
{
    lemma_int_sqrt_exists(n);
}

/// The square root of a positive number is the largest count of raw units
/// whose square does not exceed the number, both taken as fixed-point
/// numbers: squaring brings in the factor of one a second time.
pub proof fn lemma_fx_sqrt(a: int)
    requires
        a > 0,
    ensures
        fx_sqrt(a) >= 0,
        fx_sqrt(a) * fx_sqrt(a) <= a * ONE_RAW < (fx_sqrt(a) + 1) * (fx_sqrt(a) + 1),
{
    lemma_int_sqrt(a * ONE_RAW);
}

/// A length reaches the smallest length that counts as non-zero exactly
/// when the squares of the coordinates sum to at least its square.
pub proof fn lemma_fx_len_counts(x: int, y: int, z: int)
    ensures
        fx_len(x, y, z) >= 0,
        fx_len(x, y, z) >= EPSILON_RAW <==> x * x + y * y + z * z >= 4,
{
    let n = x * x + y * y + z * z;
    assert(n >= 0) by (nonlinear_arith)
        requires
            n == x * x + y * y + z * z,
    ;
    lemma_int_sqrt(n);
    let r = int_sqrt(n);
    assert(r >= 2 <==> n >= 4) by (nonlinear_arith)
        requires
            0 <= r,
            r * r <= n < (r + 1) * (r + 1),
    ;
}

/// Rounding toward zero never moves a quotient away from zero, and loses
/// less than one unit of the divisor.
pub proof fn lemma_trunc_div_remainder(n: int, d: int)
    requires
        d > 0,
    ensures
        magnitude(trunc_div(n, d) * d) <= magnitude(n),
        magnitude(n - trunc_div(n, d) * d) < d,
        n >= 0 ==> 0 <= trunc_div(n, d) * d <= n,
        n <= 0 ==> n <= trunc_div(n, d) * d <= 0,
{
    let m = magnitude(n);
    lemma_fundamental_div_mod(m, d);
    lemma_mod_bound(m, d);
    lemma_div_pos_is_pos(m, d);
    let q = m / d;
    assert((-q) * d == -(q * d)) by (nonlinear_arith);
}

/// A product does not depend on the order of its factors.
pub proof fn lemma_fx_mul_commutes(a: int, b: int)
    ensures
        fx_mul(a, b) == fx_mul(b, a),
{
}

/// Multiplying by one changes nothing, and multiplying by zero gives zero.
pub proof fn lemma_fx_mul_unit(a: int)
    requires
        MIN_RAW <= a <= MAX_RAW,
    ensures
        fx_mul(a, ONE_RAW as int) == a,
        fx_mul(ONE_RAW as int, a) == a,
        fx_mul(a, 0) == 0,
        fx_mul(0, a) == 0,
{
    lemma_fx_mul_commutes(a, ONE_RAW as int);
    lemma_fx_mul_commutes(a, 0);
}

/// A square is not negative.
pub proof fn lemma_fx_square_not_negative(a: int)
    ensures
        fx_mul(a, a) >= 0,
{
    assert(a * a >= 0) by (nonlinear_arith);
    lemma_trunc_div_sign(a * a, ONE_RAW as int);
}

/// A quotient that stays in range, multiplied back by the divisor, differs
/// from the dividend by less than the size of the divisor, and is never
/// further from zero.
pub proof fn lemma_fx_div_error(a: int, b: int)
    requires
        b != 0,
        MIN_RAW <= trunc_div(a * ONE_RAW, b) <= MAX_RAW,
    ensures
        magnitude(a * ONE_RAW - fx_div(a, b) * b) < magnitude(b),
        magnitude(fx_div(a, b) * b) <= magnitude(a * ONE_RAW),
{
    let n = a * ONE_RAW;
    if b > 0 {
        lemma_trunc_div_remainder(n, b);
    } else {
        lemma_trunc_div_remainder(n, -b);
        lemma_trunc_div_neg_divisor(n, -b);
        let q = trunc_div(n, -b);
        assert((-q) * b == q * (-b)) by (nonlinear_arith);
    }
}

/// The square of a number is positive exactly when the number is at least
/// 2^-12 away from zero: the square of anything nearer rounds to zero.
pub proof fn lemma_fx_square_positive(a: int)
    ensures
        fx_mul(a, a) > 0 <==> magnitude(a) >= 4096,
{
    let m = magnitude(a);
    assert(a * a == m * m) by (nonlinear_arith)
        requires
            m == a || m == -a,
    ;
    if m >= 4096 {
        assert(m * m >= 16777216) by (nonlinear_arith)
            requires
                m >= 4096,
        ;
        lemma_div_is_ordered(16777216, m * m, 16777216);
    } else {
        assert(m * m < 16777216) by (nonlinear_arith)
            requires
                0 <= m <= 4095,
        ;
    }
}

/// What rounding can lose when a quotient by `d` is multiplied by `d`
/// again: the size of `d` in whole units, and two raw units more.
pub open spec fn rounding_slack(d: int) -> int {
    magnitude(d) / (ONE_RAW as int) + 2
}

/// A parameter at or above the quotient `n / d`, multiplied by the positive
/// `d`, gives at least `n`, up to rounding.
pub proof fn lemma_scaled_back_lower(n: int, d: int, t: int)
    requires
        d > 0,
        t >= trunc_div(n * ONE_RAW, d),
    ensures
        trunc_div(d * t, ONE_RAW as int) >= n - rounding_slack(d),
{
    let q = trunc_div(n * ONE_RAW, d);
    lemma_trunc_div_remainder(n * ONE_RAW, d);
    lemma_trunc_div_remainder(d * t, ONE_RAW as int);
    assert(d * t >= q * d) by (nonlinear_arith)
        requires
            d > 0,
            t >= q,
    ;
    lemma_fundamental_div_mod(d, ONE_RAW as int);
    lemma_mod_bound(d, ONE_RAW as int);
}

/// A parameter at or below the quotient `n / d`, multiplied by the positive
/// `d`, gives at most `n`, up to rounding.
pub proof fn lemma_scaled_back_upper(n: int, d: int, t: int)
    requires
        d > 0,
        t <= trunc_div(n * ONE_RAW, d),
    ensures
        trunc_div(d * t, ONE_RAW as int) <= n + rounding_slack(d),
{
    let q = trunc_div(n * ONE_RAW, d);
    lemma_trunc_div_remainder(n * ONE_RAW, d);
    lemma_trunc_div_remainder(d * t, ONE_RAW as int);
    assert(d * t <= q * d) by (nonlinear_arith)
        requires
            d > 0,
            t <= q,
    ;
    lemma_fundamental_div_mod(d, ONE_RAW as int);
    lemma_mod_bound(d, ONE_RAW as int);
}

/// A multiple of the divisor divides without rounding.
pub proof fn lemma_trunc_div_exact(t: int, d: int)
    requires
        d != 0,
    ensures
        trunc_div(t * d, d) == t,
{
    let mt = magnitude(t);
    let md = magnitude(d);
    assert(magnitude(t * d) == mt * md) by (nonlinear_arith)
        requires
            mt == magnitude(t),
            md == magnitude(d),
    ;
    lemma_div_by_multiple(mt, md);
    lemma_trunc_div_quotient(t * d, d);
    assert((t > 0 && d > 0) || (t < 0 && d < 0) ==> t * d > 0) by (nonlinear_arith);
    assert((t > 0 && d < 0) || (t < 0 && d > 0) ==> t * d < 0) by (nonlinear_arith);
}

/// Where the product of a parameter and a positive `d`, rounded, lies
/// inside the bounds `n` and `m` by a raw unit, the parameter lies between
/// the quotients `n / d` and `m / d`.
pub proof fn lemma_scaled_forth(n: int, m: int, d: int, t: int)
    requires
        d > 0,
        n + 1 <= trunc_div(d * t, ONE_RAW as int) <= m - 1,
    ensures
        trunc_div(n * ONE_RAW, d) <= t <= trunc_div(m * ONE_RAW, d),
{
    lemma_trunc_div_remainder(d * t, ONE_RAW as int);
    lemma_trunc_div_exact(t, d);
    lemma_trunc_div_monotone(n * ONE_RAW, t * d, d);
    lemma_trunc_div_monotone(t * d, m * ONE_RAW, d);
}

/// Multiplying by a whole number does not round: the product is the
/// multiple itself, clamped to the range.
pub proof fn lemma_fx_mul_whole(k: int, a: int)
    ensures
        fx_mul(k * ONE_RAW, a) == sat(k * a),
{
    assert((k * ONE_RAW) * a == (k * a) * ONE_RAW) by (nonlinear_arith);
    lemma_trunc_div_exact(k * a, ONE_RAW as int);
}

} // verus!
