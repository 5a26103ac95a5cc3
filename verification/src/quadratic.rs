//! Real roots of quadratic equations.
use crate::fixed::{
    fx_add, fx_div, fx_neg, fx_sqrt, fx_sub, lemma_fx_div_antitone, lemma_fx_div_error,
    lemma_fx_div_monotone, lemma_fx_mul_whole, lemma_fx_sqrt, lemma_trunc_div_remainder, magnitude,
    trunc_div, MAX_RAW, MIN_RAW, ONE_RAW,
};
use crate::scalar::Scalar;
use vstd::prelude::*;

verus! {

/// The discriminant `b*b - 4*a*c`.
pub open spec fn spec_discriminant(a: Scalar, b: Scalar, c: Scalar) -> Scalar {
    b.mul(b).sub(Scalar::from_int(4).mul(a).mul(c))
}

/// The roots of `a*t*t + b*t + c == 0`, as `solve_quadratic` gives them.
pub open spec fn spec_solve_quadratic(a: Scalar, b: Scalar, c: Scalar) -> Option<Seq<Scalar>> {
    let disc = spec_discriminant(a, b, c);
    let root = disc.sqrt();
    let two_a = Scalar::from_int(2).mul(a);
    if disc@ < 0 {
        None
    } else if a@ == 0 {
        Some(Seq::empty())
    } else if disc@ == 0 {
        Some(seq![b.neg().add(root).div(two_a)])
    } else {
        Some(seq![b.neg().add(root).div(two_a), b.neg().sub(root).div(two_a)])
    }
}

/// The discriminant `b*b - 4*a*c`.
#[verifier::when_used_as_spec(spec_discriminant)]
pub fn discriminant(a: Scalar, b: Scalar, c: Scalar) -> (r: Scalar)
    ensures
        r == spec_discriminant(a, b, c),
{
    b.mul(b).sub(Scalar::from_int(4).mul(a).mul(c))
}

/// Solves `a*t*t + b*t + c == 0` for real `t`.
///
/// Absent when the discriminant is negative: there is no real root.
/// Otherwise the roots are `(-b + s) / 2a` and then `(-b - s) / 2a`, where
/// `s` is the square root of the discriminant; a zero discriminant gives
/// that one root once. With `a` zero the equation is not quadratic, and the
/// list of roots is empty.
pub fn solve_quadratic(a: Scalar, b: Scalar, c: Scalar) -> (r: Option<Vec<Scalar>>)
    ensures
        match r {
            Some(roots) => spec_solve_quadratic(a, b, c) == Some(roots@),
            None => spec_solve_quadratic(a, b, c) is None,
        },
        r is Some <==> spec_discriminant(a, b, c)@ >= 0,
        r is Some ==> r.unwrap()@.len() <= 2,
{
    let disc = discriminant(a, b, c);
    if disc.lt(Scalar::zero()) {
        return None;
    }
    let mut roots: Vec<Scalar> = Vec::new();
    if a.raw != 0 {
        let two_a = Scalar::from_int(2).mul(a);
        let root = disc.sqrt();
        roots.push(b.neg().add(root).div(two_a));
        if disc.raw != 0 {
            roots.push(b.neg().sub(root).div(two_a));
        }
    }
    proof {
        assert(roots@ == spec_solve_quadratic(a, b, c).unwrap());
    }
    Some(roots)
}

/// The square root in the formula of the roots is the root of the
/// discriminant rounded down, and the two roots come in a fixed order: the
/// root with the square root added comes first, and it is the greater one
/// when `a` is positive, the lesser one when `a` is negative.
pub proof fn lemma_quadratic_roots(a: Scalar, b: Scalar, c: Scalar)
    requires
        spec_solve_quadratic(a, b, c) is Some,
        a@ != 0,
    ensures
        ({
            let roots = spec_solve_quadratic(a, b, c).unwrap();
            let s = spec_discriminant(a, b, c).sqrt()@;
            &&& s >= 0
            &&& s * s <= spec_discriminant(a, b, c)@ * ONE_RAW < (s + 1) * (s + 1)
            &&& 1 <= roots.len() <= 2
            &&& roots.len() == 1 <==> spec_discriminant(a, b, c)@ == 0
            &&& a@ > 0 ==> roots.last()@ <= roots[0]@
            &&& a@ < 0 ==> roots[0]@ <= roots.last()@
        }),
{
    let disc = spec_discriminant(a, b, c);
    let s = disc.sqrt()@;
    let two_a = Scalar::from_int(2).mul(a);
    if disc@ > 0 {
        let r = fx_sqrt(disc@);
        lemma_fx_sqrt(disc@);
        if r > 0x7fff_ffff_ffff_ffff {
            assert(r * r > 0x7fff_ffff_ffff_ffff * 16777216) by (nonlinear_arith)
                requires
                    r > 0x7fff_ffff_ffff_ffff,
            ;
        }
        assert(s == r);
    } else {
        assert(0 * 0 == 0 && 1 * 1 == 1) by (nonlinear_arith);
    }
    lemma_fx_mul_whole(2, a@);
    assert(two_a@ != 0 && (two_a@ > 0 <==> a@ > 0));
    let hi = fx_add(fx_neg(b@), s);
    let lo = fx_sub(fx_neg(b@), s);
    if two_a@ > 0 {
        lemma_fx_div_monotone(lo, hi, two_a@);
    } else {
        lemma_fx_div_antitone(lo, hi, two_a@);
    }
}

/// Each root solves its linear equation up to the rounding of one
/// division: with `s` the square root of the discriminant, the first root
/// times `2a` equals `-b + s`, and the second root times `2a` equals
/// `-b - s`. Taken in raw units, the two sides differ by less than the
/// size of `2a`. This holds where no step saturates.
pub proof fn lemma_quadratic_root_equations(a: Scalar, b: Scalar, c: Scalar)
    requires
        spec_solve_quadratic(a, b, c) is Some,
        a@ != 0,
        MIN_RAW <= 2 * a@ <= MAX_RAW,
        MIN_RAW < b@,
        -b@ + spec_discriminant(a, b, c).sqrt()@ <= MAX_RAW,
        MIN_RAW <= -b@ - spec_discriminant(a, b, c).sqrt()@,
        forall|i: int|
            0 <= i < spec_solve_quadratic(a, b, c).unwrap().len() ==> MIN_RAW < (
            #[trigger] spec_solve_quadratic(a, b, c).unwrap()[i])@ < MAX_RAW,
    ensures
        ({
            let roots = spec_solve_quadratic(a, b, c).unwrap();
            let s = spec_discriminant(a, b, c).sqrt()@;
            &&& magnitude((-b@ + s) * ONE_RAW - roots[0]@ * (2 * a@)) < magnitude(2 * a@)
            &&& roots.len() == 2 ==> magnitude((-b@ - s) * ONE_RAW - roots[1]@ * (2 * a@))
                < magnitude(2 * a@)
        }),
{
    let roots = spec_solve_quadratic(a, b, c).unwrap();
    let s = spec_discriminant(a, b, c).sqrt()@;
    lemma_quadratic_roots(a, b, c);
    let two_a = Scalar::from_int(2).mul(a);
    lemma_fx_mul_whole(2, a@);
    assert(two_a@ == 2 * a@);
    assert(MIN_RAW < roots[0]@ < MAX_RAW);
    lemma_fx_div_error(-b@ + s, 2 * a@);
    if roots.len() == 2 {
        assert(MIN_RAW < roots[1]@ < MAX_RAW);
        lemma_fx_div_error(-b@ - s, 2 * a@);
    }
}

/// The left side of `a*t*t + b*t + c == 0`, with every term brought to
/// the same scale: coefficients and parameter are counts of raw units, so
/// `a*t*t` carries the factor of one three times, `b*t` twice and `c`
/// once.
pub open spec fn quadratic_residual(a: int, b: int, c: int, t: int) -> int {
    a * t * t + b * t * ONE_RAW + c * ONE_RAW * ONE_RAW
}

/// No step on the way to the roots saturates: neither the products and
/// the difference that make up the discriminant, nor the sums of `-b` and
/// the square root.
pub open spec fn solves_in_range(a: Scalar, b: Scalar, c: Scalar) -> bool {
    let squared = trunc_div(b@ * b@, ONE_RAW as int);
    let product = trunc_div(4 * a@ * c@, ONE_RAW as int);
    let s = spec_discriminant(a, b, c).sqrt()@;
    &&& MIN_RAW <= 4 * a@ <= MAX_RAW
    &&& squared <= MAX_RAW
    &&& MIN_RAW <= product <= MAX_RAW
    &&& MIN_RAW <= squared - product <= MAX_RAW
    &&& MIN_RAW < b@
    &&& -b@ + s <= MAX_RAW
    &&& MIN_RAW <= -b@ - s
}

/// What the roundings of the solver can leave of the equation's left side,
/// multiplied by `4a`: with `s` the square root of the discriminant,
/// `(2s + 2*1) * 1 * 1 + 4|a| * s * 1 + 4a*a`, where `1` is the value one
/// in raw units.
pub open spec fn quadratic_tolerance(a: int, s: int) -> int {
    (2 * s + 2 * ONE_RAW) * ONE_RAW * ONE_RAW + 4 * magnitude(a) * s * ONE_RAW + 4 * a * a
}

/// An identity of polynomials: four times `a` times the equation's left
/// side is the square of `2*a*r + b` less the exact discriminant, all at
/// one scale.
proof fn lemma_residual_identity(a: int, b: int, c: int, r: int, k: int)
    ensures
        4 * a * (a * r * r + b * r * k + c * k * k) == (2 * a * r + b * k) * (2 * a * r + b * k)
            - (b * b - 4 * a * c) * k * k,
{
    let x = 2 * a * r;
    let y = b * k;
    let t1 = a * r * r;
    let t2 = b * r * k;
    let t3 = c * k * k;
    assert(4 * a * (t1 + t2 + t3) == 4 * a * t1 + 4 * a * t2 + 4 * a * t3) by (nonlinear_arith);
    assert(x * x == 4 * a * t1) by (nonlinear_arith)
        requires
            x == 2 * a * r,
            t1 == a * r * r,
    ;
    assert(2 * x * y == 4 * a * t2) by (nonlinear_arith)
        requires
            x == 2 * a * r,
            y == b * k,
            t2 == b * r * k,
    ;
    assert((x + y) * (x + y) == x * x + 2 * x * y + y * y) by (nonlinear_arith);
    assert(y * y == b * b * k * k) by (nonlinear_arith)
        requires
            y == b * k,
    ;
    assert((b * b - 4 * a * c) * k * k == b * b * k * k - 4 * a * t3) by (nonlinear_arith)
        requires
            t3 == c * k * k,
    ;
}

/// Every root that the solver gives solves the equation up to rounding:
/// the equation's left side at the root, multiplied by `4a`, stays within
/// the tolerance. This holds where no step on the way to the root
/// saturates, the last division included.
#[verifier::rlimit(40)]
pub proof fn lemma_quadratic_residual(a: Scalar, b: Scalar, c: Scalar, i: int)
    requires
        solves_in_range(a, b, c),
        a@ != 0,
        spec_solve_quadratic(a, b, c) matches Some(roots) && 0 <= i < roots.len() && MIN_RAW
            < roots[i]@ < MAX_RAW,
    ensures
        magnitude(
            4 * a@ * quadratic_residual(a@, b@, c@, spec_solve_quadratic(a, b, c).unwrap()[i]@),
        ) <= quadratic_tolerance(a@, spec_discriminant(a, b, c).sqrt()@),
{
    let k = ONE_RAW as int;
    let roots = spec_solve_quadratic(a, b, c).unwrap();
    let r = roots[i]@;
    let disc = spec_discriminant(a, b, c);
    let s = disc.sqrt()@;
    lemma_quadratic_roots(a, b, c);
    // The discriminant, and what its two roundings lose.
    let bb = trunc_div(b@ * b@, k);
    let four_a = 4 * a@;
    let ac = trunc_div(four_a * c@, k);
    assert(b@ * b@ >= 0) by (nonlinear_arith);
    assert(four_a * c@ == 4 * a@ * c@);
    lemma_trunc_div_remainder(b@ * b@, k);
    lemma_trunc_div_remainder(four_a * c@, k);
    lemma_fx_mul_whole(4, a@);
    assert(Scalar::from_int(4).mul(a)@ == four_a);
    assert(disc@ == bb - ac);
    let e3 = b@ * b@ - bb * k;
    let e4 = four_a * c@ - ac * k;
    let e2 = disc@ * k - s * s;
    assert(0 <= e2 <= 2 * s) by (nonlinear_arith)
        requires
            s >= 0,
            s * s <= disc@ * k < (s + 1) * (s + 1),
            e2 == disc@ * k - s * s,
    ;
    let e34 = e3 - e4;
    assert(s * s == b@ * b@ - 4 * a@ * c@ - e34 - e2) by (nonlinear_arith)
        requires
            e2 == disc@ * k - s * s,
            disc@ == bb - ac,
            e3 == b@ * b@ - bb * k,
            e4 == four_a * c@ - ac * k,
            four_a == 4 * a@,
            e34 == e3 - e4,
    ;
    // The root, and what its division loses.
    let two_a = 2 * a@;
    lemma_fx_mul_whole(2, a@);
    assert(Scalar::from_int(2).mul(a)@ == two_a);
    let n = if i == 0 {
        -b@ + s
    } else {
        -b@ - s
    };
    assert(b.neg()@ == -b@);
    assert(b.neg().add(disc.sqrt())@ == -b@ + s);
    assert(b.neg().sub(disc.sqrt())@ == -b@ - s);
    assert(r == fx_div(n, two_a));
    lemma_fx_div_error(n, two_a);
    let e1 = n * k - r * two_a;
    let w = 2 * a@ * r + b@ * k;
    assert(r * two_a == 2 * a@ * r) by (nonlinear_arith)
        requires
            two_a == 2 * a@,
    ;
    assert(n * k == if i == 0 {
        -(b@ * k) + s * k
    } else {
        -(b@ * k) - s * k
    });
    lemma_residual_identity(a@, b@, c@, r, k);
    let exact = (b@ * b@ - 4 * a@ * c@) * k * k;
    assert(exact == (s * s + e34 + e2) * k * k);
    assert(exact == s * s * k * k + (e2 + e34) * k * k) by (nonlinear_arith)
        requires
            exact == (s * s + e34 + e2) * k * k,
    ;
    let cross = 2 * s * k * e1;
    let sk = s * k;
    assert(sk * sk == s * s * k * k) by (nonlinear_arith)
        requires
            sk == s * k,
    ;
    assert(2 * sk * e1 == cross) by (nonlinear_arith)
        requires
            sk == s * k,
            cross == 2 * s * k * e1,
    ;
    if i == 0 {
        assert(w == sk - e1);
        assert(w * w == sk * sk - 2 * sk * e1 + e1 * e1) by (nonlinear_arith)
            requires
                w == sk - e1,
        ;
    } else {
        assert(w == -sk - e1);
        assert(w * w == sk * sk + 2 * sk * e1 + e1 * e1) by (nonlinear_arith)
            requires
                w == -sk - e1,
        ;
    }
    // The bound.
    let m = magnitude(a@);
    assert(magnitude(e34) < 2 * k);
    assert(magnitude((e2 + e34) * k * k) <= (2 * s + 2 * k) * k * k) by (nonlinear_arith)
        requires
            0 <= e2 <= 2 * s,
            magnitude(e34) < 2 * k,
            k > 0,
    ;
    assert(0 <= e1 * e1 <= 4 * a@ * a@) by (nonlinear_arith)
        requires
            magnitude(e1) < 2 * m,
            m == magnitude(a@),
    ;
    assert(magnitude(2 * s * k * e1) <= 4 * m * s * k) by (nonlinear_arith)
        requires
            magnitude(e1) < 2 * m,
            s >= 0,
            k > 0,
    ;
}

} // verus!
