use glyphy::numeric::{
    ceil_sqrt_u128, div_ceil, div_floor, div_round, isqrt_u128,
};

#[test]
fn integer_square_roots() {
    assert_eq!(isqrt_u128(0), 0);
    assert_eq!(isqrt_u128(1), 1);
    assert_eq!(isqrt_u128(2), 1);
    assert_eq!(isqrt_u128(3), 1);
    assert_eq!(isqrt_u128(4), 2);
    assert_eq!(isqrt_u128(15), 3);
    assert_eq!(isqrt_u128(16), 4);
    assert_eq!(isqrt_u128(17), 4);
    assert_eq!(isqrt_u128(1_000_000_000_000_000_000_000_000_000_000), 1_000_000_000_000_000);
    assert_eq!(isqrt_u128(999_999_999_999_999_999_999_999_999_999), 999_999_999_999_999);
    assert_eq!(isqrt_u128(u128::MAX), 18_446_744_073_709_551_615);
}

#[test]
fn square_roots_rounded_up() {
    assert_eq!(ceil_sqrt_u128(0), 0);
    assert_eq!(ceil_sqrt_u128(1), 1);
    assert_eq!(ceil_sqrt_u128(2), 2);
    assert_eq!(ceil_sqrt_u128(4), 2);
    assert_eq!(ceil_sqrt_u128(5), 3);
    assert_eq!(ceil_sqrt_u128(9), 3);
    assert_eq!(ceil_sqrt_u128(10), 4);
    assert_eq!(ceil_sqrt_u128(u128::MAX), 18_446_744_073_709_551_616);
}

#[test]
fn division_rounds_down() {
    assert_eq!(div_floor(7, 2), 3);
    assert_eq!(div_floor(-7, 2), -4);
    assert_eq!(div_floor(-8, 2), -4);
    assert_eq!(div_floor(8, 2), 4);
    assert_eq!(div_floor(0, 5), 0);
    assert_eq!(div_floor(-1, 5), -1);
    assert_eq!(div_floor(4, 5), 0);
    assert_eq!(div_floor(i128::MIN, 1), i128::MIN);
    assert_eq!(div_floor(i128::MAX, 1), i128::MAX);
}

#[test]
fn division_rounds_up() {
    assert_eq!(div_ceil(7, 2), 4);
    assert_eq!(div_ceil(-7, 2), -3);
    assert_eq!(div_ceil(-8, 2), -4);
    assert_eq!(div_ceil(8, 2), 4);
    assert_eq!(div_ceil(0, 5), 0);
    assert_eq!(div_ceil(1, 5), 1);
    assert_eq!(div_ceil(-4, 5), 0);
}

#[test]
fn division_rounds_to_nearest_with_halves_up() {
    assert_eq!(div_round(7, 2), 4);
    assert_eq!(div_round(-7, 2), -3);
    assert_eq!(div_round(5, 3), 2);
    assert_eq!(div_round(-5, 3), -2);
    assert_eq!(div_round(4, 3), 1);
    assert_eq!(div_round(-4, 3), -1);
    assert_eq!(div_round(1, 3), 0);
    assert_eq!(div_round(-1, 2), 0);
    assert_eq!(div_round(-3, 2), -1);
    assert_eq!(div_round(0, 9), 0);
}
