use clmm_dex::math::full_math::{mul_div, Q64};

#[test]
fn one_is_two_to_the_64() {
    assert_eq!(Q64, 18446744073709551616);
}

#[test]
fn mul_div_rounds_down() {
    assert_eq!(mul_div(7, 6, 5), Some(8));
    assert_eq!(mul_div(0, 6, 5), Some(0));
    assert_eq!(mul_div(10, 10, 101), Some(0));
}

#[test]
fn mul_div_takes_the_product_in_full_width() {
    assert_eq!(mul_div(u128::MAX, u128::MAX, u128::MAX), Some(u128::MAX));
    assert_eq!(
        mul_div((1 << 127) + 12345, (1 << 100) + 7, (1 << 101) + 3),
        Some(85070591730234615865843651858311157788)
    );
    assert_eq!(
        mul_div(
            0xFEDCBA9876543210FEDCBA9876543210,
            0x123456789ABCDEF0123456789ABCDEF,
            (1 << 125) + 99
        ),
        Some(12045155585626108022285616867520928646)
    );
}

#[test]
fn mul_div_has_no_answer_by_zero() {
    assert_eq!(mul_div(7, 6, 0), None);
    assert_eq!(mul_div(0, 0, 0), None);
}

#[test]
fn mul_div_has_no_answer_past_128_bits() {
    assert_eq!(mul_div(u128::MAX, u128::MAX, u128::MAX - 1), None);
    assert_eq!(mul_div(u128::MAX, 2, 1), None);
    assert_eq!(mul_div(1 << 64, 1 << 64, 1), None);
    assert_eq!(mul_div((1 << 64) - 1, (1 << 64) + 1, 1), Some(u128::MAX));
}

#[test]
fn mul_div_by_a_large_divisor() {
    assert_eq!(mul_div(u128::MAX, u128::MAX - 1, u128::MAX), Some(u128::MAX - 1));
    assert_eq!(mul_div(u128::MAX - 1, u128::MAX - 1, u128::MAX), Some(u128::MAX - 2));
    assert_eq!(mul_div(1 << 127, 1 << 127, 1 << 127), Some(1 << 127));
    assert_eq!(mul_div(1 << 127, 2, 3), Some(113427455640312821154458202477256070485));
    assert_eq!(mul_div(1, 1, u128::MAX), Some(0));
}
