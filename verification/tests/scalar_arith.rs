use raycast::scalar::Scalar;

const ONE: i64 = 1 << 24;

fn raw(r: i64) -> Scalar {
    Scalar::from_raw(r)
}

#[test]
fn constants_have_their_raw_values() {
    assert_eq!(Scalar::zero().to_raw(), 0);
    assert_eq!(Scalar::one().to_raw(), ONE);
    assert_eq!(Scalar::max_value().to_raw(), i64::MAX);
    assert_eq!(Scalar::min_value().to_raw(), i64::MIN);
    assert_eq!(Scalar::epsilon().to_raw(), 2);
}

#[test]
fn whole_numbers_scale_by_one() {
    assert_eq!(Scalar::from_int(0), Scalar::zero());
    assert_eq!(Scalar::from_int(1), Scalar::one());
    assert_eq!(Scalar::from_int(-7).to_raw(), -7 * ONE);
    assert_eq!(Scalar::from_int(i32::MAX).to_raw(), (i32::MAX as i64) * ONE);
    assert_eq!(Scalar::from_int(i32::MIN).to_raw(), (i32::MIN as i64) * ONE);
}

#[test]
fn ratios_round_toward_zero() {
    assert_eq!(Scalar::from_ratio(1, 2).to_raw(), ONE / 2);
    assert_eq!(Scalar::from_ratio(1, 3).to_raw(), 5592405);
    assert_eq!(Scalar::from_ratio(-1, 3).to_raw(), -5592405);
    assert_eq!(Scalar::from_ratio(1, -3).to_raw(), -5592405);
    assert_eq!(Scalar::from_ratio(-2, -3).to_raw(), 11184810);
    assert_eq!(Scalar::from_ratio(5, 0), Scalar::max_value());
    assert_eq!(Scalar::from_ratio(-5, 0), Scalar::min_value());
    assert_eq!(Scalar::from_ratio(0, 0), Scalar::zero());
}

#[test]
fn sums_and_differences_are_exact_in_range() {
    assert_eq!(raw(5).add(raw(-8)), raw(-3));
    assert_eq!(raw(5).sub(raw(-8)), raw(13));
    assert_eq!(Scalar::from_int(3).add(Scalar::from_ratio(1, 2)).to_raw(), 7 * ONE / 2);
}

#[test]
fn sums_and_differences_saturate() {
    assert_eq!(Scalar::max_value().add(raw(1)), Scalar::max_value());
    assert_eq!(Scalar::min_value().add(raw(-1)), Scalar::min_value());
    assert_eq!(Scalar::max_value().add(Scalar::max_value()), Scalar::max_value());
    assert_eq!(Scalar::min_value().sub(raw(1)), Scalar::min_value());
    assert_eq!(raw(-2).sub(Scalar::max_value()), Scalar::min_value());
    assert_eq!(raw(0).sub(Scalar::min_value()), Scalar::max_value());
    assert_eq!(Scalar::max_value().add(Scalar::min_value()), raw(-1));
}

#[test]
fn negation_saturates_at_minus_infinity() {
    assert_eq!(raw(9).neg(), raw(-9));
    assert_eq!(raw(0).neg(), raw(0));
    assert_eq!(Scalar::max_value().neg(), raw(-i64::MAX));
    assert_eq!(Scalar::min_value().neg(), Scalar::max_value());
}

#[test]
fn products_round_toward_zero() {
    let third = Scalar::from_ratio(1, 3);
    assert_eq!(third.mul(third).to_raw(), 1864134);
    assert_eq!(third.neg().mul(third).to_raw(), -1864134);
    assert_eq!(third.neg().mul(third.neg()).to_raw(), 1864134);
    assert_eq!(third.mul(Scalar::from_int(3)).to_raw(), ONE - 1);
    assert_eq!(raw(4095).mul(raw(4095)), raw(0));
    assert_eq!(raw(-4095).mul(raw(4095)), raw(0));
    assert_eq!(raw(4096).mul(raw(4096)), raw(1));
    assert_eq!(Scalar::from_int(6).mul(Scalar::from_int(-7)), Scalar::from_int(-42));
}

#[test]
fn one_and_zero_in_products() {
    let x = raw(-123456789);
    assert_eq!(x.mul(Scalar::one()), x);
    assert_eq!(Scalar::one().mul(x), x);
    assert_eq!(x.mul(Scalar::zero()), Scalar::zero());
    assert_eq!(Scalar::min_value().mul(Scalar::one()), Scalar::min_value());
}

#[test]
fn products_saturate() {
    let big = Scalar::from_int(100000);
    assert_eq!(big.mul(big).to_raw(), 167772160000000000);
    let huge = Scalar::from_int(2000000);
    assert_eq!(huge.mul(huge), Scalar::max_value());
    assert_eq!(huge.mul(huge.neg()), Scalar::min_value());
    assert_eq!(Scalar::min_value().mul(Scalar::min_value()), Scalar::max_value());
    assert_eq!(Scalar::min_value().mul(Scalar::max_value()), Scalar::min_value());
}

#[test]
fn quotients_round_toward_zero() {
    assert_eq!(Scalar::from_int(1).div(Scalar::from_int(3)).to_raw(), 5592405);
    assert_eq!(Scalar::from_int(-1).div(Scalar::from_int(3)).to_raw(), -5592405);
    assert_eq!(Scalar::from_int(7).div(Scalar::from_int(-2)).to_raw(), -7 * ONE / 2);
    assert_eq!(raw(1).div(Scalar::from_int(2)), raw(0));
    assert_eq!(raw(-1).div(Scalar::from_int(2)), raw(0));
    assert_eq!(Scalar::from_int(42).div(Scalar::from_int(42)), Scalar::one());
}

#[test]
fn division_by_zero_follows_the_sign() {
    assert_eq!(raw(1).div(raw(0)), Scalar::max_value());
    assert_eq!(raw(-1).div(raw(0)), Scalar::min_value());
    assert_eq!(raw(0).div(raw(0)), raw(0));
}

#[test]
fn quotients_saturate() {
    assert_eq!(Scalar::max_value().div(Scalar::from_ratio(1, 2)), Scalar::max_value());
    assert_eq!(Scalar::min_value().div(Scalar::from_ratio(1, 2)), Scalar::min_value());
    assert_eq!(Scalar::min_value().div(Scalar::from_int(-1)), Scalar::max_value());
    assert_eq!(Scalar::from_int(1000000).div(raw(1)), Scalar::max_value());
}

#[test]
fn square_roots_round_down() {
    assert_eq!(Scalar::from_int(4).sqrt(), Scalar::from_int(2));
    assert_eq!(Scalar::from_int(2).sqrt().to_raw(), 23726566);
    assert_eq!(Scalar::from_ratio(1, 4).sqrt(), Scalar::from_ratio(1, 2));
    assert_eq!(raw(1).sqrt().to_raw(), 4096);
    assert_eq!(raw(3).sqrt().to_raw(), 7094);
    assert_eq!(Scalar::max_value().sqrt().to_raw(), 12439554047901);
}

#[test]
fn square_root_is_the_largest_with_square_below() {
    for r in [1i64, 2, 3, 5, 1000, ONE, 3 * ONE + 17, i64::MAX] {
        let s = raw(r).sqrt().to_raw() as i128;
        let n = (r as i128) << 24;
        assert!(s * s <= n);
        assert!((s + 1) * (s + 1) > n);
    }
}

#[test]
fn square_root_of_what_is_not_positive_is_zero() {
    assert_eq!(raw(0).sqrt(), raw(0));
    assert_eq!(raw(-1).sqrt(), raw(0));
    assert_eq!(Scalar::min_value().sqrt(), raw(0));
}

#[test]
fn comparisons_follow_the_raw_values() {
    let a = raw(-3);
    let b = raw(4);
    assert!(a.lt(b) && !b.lt(a) && !a.lt(a));
    assert!(a.le(b) && !b.le(a) && a.le(a));
    assert!(b.gt(a) && !a.gt(b) && !a.gt(a));
    assert!(b.ge(a) && !a.ge(b) && a.ge(a));
    assert!(a < b);
    assert_eq!(a.min(b), a);
    assert_eq!(b.min(a), a);
    assert_eq!(a.max(b), b);
    assert_eq!(b.max(a), b);
}

#[test]
fn distance_from_zero() {
    assert_eq!(raw(0).abs_raw(), 0);
    assert_eq!(raw(-5).abs_raw(), 5);
    assert_eq!(raw(7).abs_raw(), 7);
    assert_eq!(Scalar::max_value().abs_raw(), i64::MAX as u64);
    assert_eq!(Scalar::min_value().abs_raw(), 1 << 63);
}

#[test]
fn length_of_three_coordinates() {
    assert_eq!(Scalar::length(raw(3), raw(-4), raw(0)), raw(5));
    assert_eq!(Scalar::length(raw(1), raw(1), raw(1)), raw(1));
    assert_eq!(Scalar::length(raw(2), raw(2), raw(1)), raw(3));
    assert_eq!(Scalar::length(raw(0), raw(0), raw(0)), raw(0));
    assert_eq!(
        Scalar::length(Scalar::from_int(1), Scalar::from_int(1), Scalar::from_int(1)).to_raw(),
        29058990
    );
    assert_eq!(
        Scalar::length(Scalar::min_value(), Scalar::min_value(), Scalar::min_value()),
        Scalar::max_value()
    );
    assert_eq!(
        Scalar::length(raw(1 << 62), raw(0), raw(0)),
        raw(1 << 62)
    );
}
