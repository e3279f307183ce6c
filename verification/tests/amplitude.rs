use uresamp::amplitude::{floor_div, lower, mean_of, raise, saturating_offset, UNIT};

#[test]
fn unit_has_sixteen_fractional_bits() {
    assert_eq!(UNIT, 65536);
    assert_eq!(UNIT, 1 << 16);
}

#[test]
fn floor_div_rounds_down() {
    assert_eq!(floor_div(7, 2), 3);
    assert_eq!(floor_div(-7, 2), -4);
    assert_eq!(floor_div(-8, 2), -4);
    assert_eq!(floor_div(-1, 5), -1);
    assert_eq!(floor_div(0, 5), 0);
    assert_eq!(floor_div(-5, 5), -1);
    assert_eq!(floor_div(-6, 5), -2);
    assert_eq!(floor_div(i128::MIN, 1), i128::MIN);
    assert_eq!(floor_div(i128::MAX, 1), i128::MAX);
    assert_eq!(floor_div(i128::MIN, i128::MAX), -2);
}

#[test]
fn mean_of_rounds_down() {
    assert_eq!(mean_of(&[]), 0);
    assert_eq!(mean_of(&[5]), 5);
    assert_eq!(mean_of(&[1, 2, 3]), 2);
    assert_eq!(mean_of(&[1, 2]), 1);
    assert_eq!(mean_of(&[-1, 0]), -1);
    assert_eq!(mean_of(&[-3, -4]), -4);
    assert_eq!(mean_of(&[-3, 3]), 0);
}

#[test]
fn mean_of_extreme_samples_does_not_overflow() {
    assert_eq!(mean_of(&[i64::MAX, i64::MAX, i64::MAX]), i64::MAX);
    assert_eq!(mean_of(&[i64::MIN, i64::MIN, i64::MIN]), i64::MIN);
    assert_eq!(mean_of(&[i64::MAX, i64::MIN]), -1);
}

#[test]
fn offsets_saturate() {
    assert_eq!(saturating_offset(5, 7), 12);
    assert_eq!(saturating_offset(5, -7), -2);
    assert_eq!(saturating_offset(i64::MAX, 1), i64::MAX);
    assert_eq!(saturating_offset(i64::MIN, -1), i64::MIN);
    assert_eq!(saturating_offset(i64::MIN, u64::MAX as i128), i64::MAX);
    assert_eq!(saturating_offset(i64::MAX, -(u64::MAX as i128)), i64::MIN);
}

#[test]
fn raise_and_lower_move_every_sample() {
    assert_eq!(raise(&[1, 2, 3], 10), vec![11, 12, 13]);
    assert_eq!(lower(&[1, 2, 3], 10), vec![-9, -8, -7]);
    assert_eq!(raise(&[], 10), Vec::<i64>::new());
    assert_eq!(raise(&[i64::MAX, 0], 1), vec![i64::MAX, 1]);
    assert_eq!(lower(&[i64::MIN, 0], 1), vec![i64::MIN, -1]);
    assert_eq!(lower(&[0, -1], i64::MIN), vec![i64::MAX, i64::MAX]);
    assert_eq!(raise(&[0, 1], i64::MIN), vec![i64::MIN, i64::MIN + 1]);
}
