use rusty_junctions::counter::Counter;

const UINT_MIN: u64 = u64::MIN;
const UINT_MAX: u64 = u64::MAX;

#[test]
fn test_create_with_default() {
    // When:
    let _a = Counter::default();
}

#[test]
fn test_default_is_initial_digit_value() {
    // Given:
    let actual = Counter::default();

    // Then:
    let expected = Counter::from(vec![UINT_MIN]);
    assert_eq!(expected, actual);
}

#[test]
fn test_create_with_from_single_digit() {
    // When:
    let _a = Counter::from(vec![1729]);
}

#[test]
fn test_create_with_from_multiple_digits() {
    // When:
    let _a = Counter::from(vec![1729, 42, 69]);
}

#[test]
fn test_increment_initial_value() {
    // Given:
    let mut actual = Counter::from(vec![UINT_MIN]);

    // When:
    actual.increment();

    // Then:
    let expected = Counter::from(vec![UINT_MIN + 1]);
    assert_eq!(expected, actual);
}

#[test]
fn test_increment_one_below_max_value() {
    // Given:
    let mut actual = Counter::from(vec![UINT_MAX - 1]);

    // When:
    actual.increment();

    // Then:
    let expected = Counter::from(vec![UINT_MAX]);
    assert_eq!(expected, actual);
}

#[test]
fn test_increment_one_digit_overflow() {
    // Given:
    let mut actual = Counter::from(vec![UINT_MAX]);

    // When:
    actual.increment();

    // Then:
    let expected = Counter::from(vec![UINT_MIN, UINT_MIN + 1]);
    assert_eq!(expected, actual);
}

#[test]
fn test_increment_one_digit_no_overflow() {
    // Given:
    let mut actual = Counter::from(vec![1729]);

    // When:
    actual.increment();

    // Then:
    let expected = Counter::from(vec![1730]);
    assert_eq!(expected, actual);
}

#[test]
fn test_increment_two_digit_overflow() {
    // Given:
    let mut actual = Counter::from(vec![UINT_MAX, UINT_MAX]);

    // When:
    actual.increment();

    // Then:
    let expected = Counter::from(vec![UINT_MIN, UINT_MIN, UINT_MIN + 1]);
    assert_eq!(expected, actual);
}

#[test]
fn test_increment_one_below_max_value_two_digits() {
    // Given:
    let mut actual = Counter::from(vec![UINT_MAX - 1, 42]);

    // When:
    actual.increment();

    // Then:
    let expected = Counter::from(vec![UINT_MAX, 42]);
    assert_eq!(expected, actual);
}

#[test]
fn test_increment_max_value_two_digits() {
    // Given:
    let mut actual = Counter::from(vec![UINT_MAX, 42]);

    // When:
    actual.increment();

    // Then:
    let expected = Counter::from(vec![UINT_MIN, 43]);
    assert_eq!(expected, actual);
}

#[test]
fn test_increment_two_digits_no_overflow() {
    // Given:
    let mut actual = Counter::from(vec![UINT_MAX - 1, UINT_MAX]);

    // When:
    actual.increment();

    // Then:
    let expected = Counter::from(vec![UINT_MAX, UINT_MAX]);
    assert_eq!(expected, actual);
}

#[test]
fn test_increment_three_digits_overflow() {
    // Given:
    let mut actual = Counter::from(vec![UINT_MAX, UINT_MAX, 42]);

    // When:
    actual.increment();

    // Then:
    let expected = Counter::from(vec![UINT_MIN, UINT_MIN, 43]);
    assert_eq!(expected, actual);
}

#[test]
fn test_increment_three_digits_no_overflow() {
    // Given:
    let mut actual = Counter::from(vec![1729, UINT_MAX, 42]);

    // When:
    actual.increment();

    // Then:
    let expected = Counter::from(vec![1730, UINT_MAX, 42]);
    assert_eq!(expected, actual);
}

#[test]
fn test_eq_same() {
    // Given:
    let a = Counter::from(vec![1, 2, 3]);
    let b = Counter::from(vec![1, 2, 3]);

    // Then:
    assert_eq!(a, b);
}

#[test]
fn test_neq_same_length() {
    // Given:
    let a = Counter::from(vec![1, 2, 4]);
    let b = Counter::from(vec![1, 2, 3]);

    // Then:
    assert!(a != b);
}

#[test]
fn test_neq_differnt_length() {
    // Given:
    let a = Counter::from(vec![1, 2]);
    let b = Counter::from(vec![1, 2, 3]);

    // Then:
    assert!(a != b);
}

#[test]
fn test_lt_same_num_digits_true() {
    // Given:
    let a = Counter::from(vec![9, 0]);
    let b = Counter::from(vec![0, 1]);

    // Then:
    assert!(a < b);
}

#[test]
fn test_lt_same_num_digits_false() {
    // Given:
    let a = Counter::from(vec![9, 0]);
    let b = Counter::from(vec![0, 1]);

    // Then:
    assert!(!(b < a));
}

#[test]
fn test_lt_diff_num_digits_true() {
    // Given:
    let a = Counter::from(vec![9]);
    let b = Counter::from(vec![0, 1]);

    // Then:
    assert!(a < b);
}

#[test]
fn test_lt_diff_num_digits_false() {
    // Given:
    let a = Counter::from(vec![9]);
    let b = Counter::from(vec![0, 1]);

    // Then:
    assert!(!(b < a));
}

#[test]
fn test_leq_same_num_digits_eq_true() {
    // Given:
    let a = Counter::from(vec![0, 1]);
    let b = Counter::from(vec![0, 1]);

    // Then:
    assert!(a <= b);
}

#[test]
fn test_leq_same_num_digits_lt_true() {
    // Given:
    let a = Counter::from(vec![0, 1]);
    let b = Counter::from(vec![0, 2]);

    // Then:
    assert!(a <= b);
}

#[test]
fn test_leq_same_num_digits_false() {
    // Given:
    let a = Counter::from(vec![0, 2]);
    let b = Counter::from(vec![0, 1]);

    // Then:
    assert!(!(a <= b));
}

#[test]
fn test_leq_diff_num_digits_true() {
    // Given:
    let a = Counter::from(vec![9]);
    let b = Counter::from(vec![0, 1]);

    // Then:
    assert!(a <= b);
}

#[test]
fn test_leq_diff_num_digits_false() {
    // Given:
    let a = Counter::from(vec![9]);
    let b = Counter::from(vec![0, 1]);

    // Then:
    assert!(!(b <= a));
}

#[test]
fn test_gt_same_num_digits_true() {
    // Given:
    let a = Counter::from(vec![0, 2]);
    let b = Counter::from(vec![0, 1]);

    // Then:
    assert!(a > b);
}

#[test]
fn test_gt_same_num_digits_false() {
    // Given:
    let a = Counter::from(vec![0, 1]);
    let b = Counter::from(vec![0, 2]);

    // Then:
    assert!(!(a > b));
}

#[test]
fn test_gt_diff_num_digits_true() {
    // Given:
    let a = Counter::from(vec![9]);
    let b = Counter::from(vec![0, 1]);

    // Then:
    assert!(b > a);
}

#[test]
fn test_gt_diff_num_digits_false() {
    // Given:
    let a = Counter::from(vec![9]);
    let b = Counter::from(vec![0, 1]);

    // Then:
    assert!(!(a > b));
}

#[test]
fn test_geq_same_num_digits_eq_true() {
    // Given:
    let a = Counter::from(vec![0, 1]);
    let b = Counter::from(vec![0, 1]);

    // Then:
    assert!(b >= a);
}

#[test]
fn test_geq_same_num_digits_gt_true() {
    // Given:
    let a = Counter::from(vec![0, 1]);
    let b = Counter::from(vec![0, 2]);

    // Then:
    assert!(b >= a);
}

#[test]
fn test_geq_same_num_digits_false() {
    // Given:
    let a = Counter::from(vec![0, 2]);
    let b = Counter::from(vec![0, 1]);

    // Then:
    assert!(!(b >= a));
}

#[test]
fn test_geq_diff_num_digits_true() {
    // Given:
    let a = Counter::from(vec![9]);
    let b = Counter::from(vec![0, 1]);

    // Then:
    assert!(b >= a);
}

#[test]
fn test_geq_diff_num_digits_false() {
    // Given:
    let a = Counter::from(vec![9]);
    let b = Counter::from(vec![0, 1]);

    // Then:
    assert!(!(a >= b));
}

#[test]
fn test_reflexifity() {
    // Given:
    let a = Counter::from(vec![1729]);

    // a == a
    assert!(a == a);
}

#[test]
fn test_symmetry() {
    // Given
    let a = Counter::from(vec![1, 2, 3]);
    let b = Counter::from(vec![1, 2, 3]);

    // a == b implies b == a
    assert!((a != b) || (b == a));
}

#[test]
fn test_transitivity() {
    // Given
    let a = Counter::from(vec![1, 2, 3]);
    let b = Counter::from(vec![1, 2, 3]);
    let c = Counter::from(vec![1, 2, 3]);

    // a == b and b == c implies a == c
    assert!((a != b) || (b != c) || (a == c));
}
