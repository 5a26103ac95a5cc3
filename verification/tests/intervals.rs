use raycast::interval::IntersectionResult;
use raycast::scalar::Scalar;

fn n(i: i32) -> Scalar {
    Scalar::from_int(i)
}

fn iv(min: i32, max: i32) -> IntersectionResult {
    IntersectionResult { min: n(min), max: n(max) }
}

#[test]
fn interval_of_three_roots() {
    let r = IntersectionResult::from_slice(&[n(2), n(-1), n(5)]);
    assert_eq!(r.min, n(-1));
    assert_eq!(r.max, n(5));
}

#[test]
fn interval_of_one_root() {
    assert_eq!(IntersectionResult::from_slice(&[n(7)]), iv(7, 7));
}

#[test]
fn interval_of_no_roots_is_empty() {
    let r = IntersectionResult::from_slice(&[]);
    assert_eq!(r.min, Scalar::max_value());
    assert_eq!(r.max, Scalar::min_value());
}

#[test]
fn interval_of_the_infinities() {
    let r = IntersectionResult::from_slice(&[Scalar::max_value(), Scalar::min_value()]);
    assert_eq!(r.min, Scalar::min_value());
    assert_eq!(r.max, Scalar::max_value());
}

#[test]
fn merge_widens_downward_and_upward() {
    let mut r = iv(1, 3);
    r.merge(n(2));
    assert_eq!(r, iv(1, 3));
    r.merge(n(-4));
    assert_eq!(r, iv(-4, 3));
    r.merge(n(9));
    assert_eq!(r, iv(-4, 9));
    r.merge(n(9));
    assert_eq!(r, iv(-4, 9));
}

#[test]
fn merge_into_the_empty_interval() {
    let mut r = IntersectionResult::from_slice(&[]);
    r.merge(n(3));
    assert_eq!(r, iv(3, 3));
}

#[test]
fn merge_slice_widens_by_every_parameter() {
    let mut r = iv(1, 3);
    r.merge_slice(&[n(2), n(5), n(-2), n(0)]);
    assert_eq!(r, iv(-2, 5));
    r.merge_slice(&[]);
    assert_eq!(r, iv(-2, 5));
}

#[test]
fn merging_the_roots_again_changes_nothing() {
    let roots = [n(2), n(-1), n(5)];
    let mut r = IntersectionResult::from_slice(&roots);
    r.merge_slice(&roots);
    assert_eq!(r, iv(-1, 5));
}

#[test]
fn bounding_interval_skips_absent_entries() {
    let r = IntersectionResult::from_set(&[Some(iv(1, 3)), None, Some(iv(2, 4))]);
    assert_eq!(r, Some(iv(1, 4)));
}

#[test]
fn bounding_interval_of_nothing_is_absent() {
    assert_eq!(IntersectionResult::from_set(&[None, None]), None);
    assert_eq!(IntersectionResult::from_set(&[]), None);
}

#[test]
fn bounding_interval_spans_gaps() {
    let r = IntersectionResult::from_set(&[None, Some(iv(5, 6)), Some(iv(-3, -2)), Some(iv(0, 1))]);
    assert_eq!(r, Some(iv(-3, 6)));
}

#[test]
fn bounding_interval_of_one_entry_is_that_entry() {
    assert_eq!(IntersectionResult::from_set(&[None, Some(iv(2, 9))]), Some(iv(2, 9)));
    let empty = IntersectionResult::from_slice(&[]);
    assert_eq!(IntersectionResult::from_set(&[Some(empty)]), Some(empty));
}

#[test]
fn bounding_interval_takes_the_first_as_it_is() {
    let empty = IntersectionResult::from_slice(&[]);
    let r = IntersectionResult::from_set(&[Some(empty), Some(iv(2, 4))]);
    assert_eq!(r, Some(iv(2, 4)));
    let r = IntersectionResult::from_set(&[Some(empty), Some(empty)]);
    assert_eq!(
        r,
        Some(IntersectionResult { min: Scalar::min_value(), max: Scalar::max_value() })
    );
}

#[test]
fn overlap_of_intervals() {
    assert_eq!(iv(1, 5).overlap(&iv(3, 9)), Some(iv(3, 5)));
    assert_eq!(iv(3, 9).overlap(&iv(1, 5)), Some(iv(3, 5)));
    assert_eq!(iv(1, 9).overlap(&iv(3, 5)), Some(iv(3, 5)));
    assert_eq!(iv(1, 3).overlap(&iv(3, 5)), Some(iv(3, 3)));
    assert_eq!(iv(1, 2).overlap(&iv(3, 5)), None);
    assert_eq!(iv(3, 5).overlap(&iv(1, 2)), None);
}
