use clmm_dex::errors::Errors;
use clmm_dex::math::compute_sqrt_price::{
    get_new_sqrt_price_from_input, get_new_sqrt_price_from_output,
};
use clmm_dex::math::compute_swap_step::{
    compute_swap_step, get_amount_a_delta, get_amount_b_delta, FEE_DENOMINATOR,
};

const ONE: u128 = 1 << 64;
const BELOW: u128 = 18354745142194483562;
const ABOVE: u128 = 18539204128674405813;
const DEPTH: u128 = 1_000_000_000_000;

#[test]
fn fee_is_stated_in_parts_per_million() {
    assert_eq!(FEE_DENOMINATOR, 1_000_000);
}

#[test]
fn amount_a_between_two_prices() {
    assert_eq!(get_amount_a_delta(BELOW, ONE, DEPTH, false), Ok(5012269623));
    assert_eq!(get_amount_a_delta(ONE, BELOW, DEPTH, false), Ok(5012269623));
    assert_eq!(get_amount_a_delta(ONE, ONE, DEPTH, false), Ok(0));
    assert_eq!(get_amount_a_delta(ONE, 2 * ONE, 1000, false), Ok(500));
    assert_eq!(get_amount_a_delta(ONE / 2, ONE, 1000, false), Ok(1000));
    assert_eq!(get_amount_a_delta(ONE, 3 * ONE, 1000, false), Ok(666));
}

#[test]
fn amount_a_is_rounded_down_either_way() {
    assert_eq!(get_amount_a_delta(ONE, 3 * ONE, 1000, true), Ok(666));
    assert_eq!(get_amount_a_delta(BELOW, ONE, DEPTH, true), Ok(5012269623));
}

#[test]
fn amount_a_at_price_zero_is_refused() {
    assert_eq!(get_amount_a_delta(0, ONE, DEPTH, false), Err(Errors::DivisionByZero));
    assert_eq!(get_amount_a_delta(ONE, 0, DEPTH, true), Err(Errors::DivisionByZero));
    assert_eq!(get_amount_a_delta(0, 0, 1 << 64, true), Err(Errors::DivisionByZero));
}

#[test]
fn amount_a_of_too_much_liquidity_is_refused() {
    assert_eq!(get_amount_a_delta(BELOW, ONE, 1 << 64, false), Err(Errors::MathError));
    assert_eq!(get_amount_a_delta(BELOW, ONE, u128::MAX, false), Err(Errors::MathError));
    assert_eq!(
        get_amount_a_delta(ONE, 2 * ONE, (1 << 64) - 1, false),
        Ok(((1u128 << 64) - 1) / 2)
    );
}

#[test]
fn amount_b_between_two_prices() {
    assert_eq!(get_amount_b_delta(ONE, ABOVE, DEPTH, false), Ok(5012269623));
    assert_eq!(get_amount_b_delta(ABOVE, ONE, DEPTH, false), Ok(5012269623));
    assert_eq!(get_amount_b_delta(ONE, ONE, DEPTH, true), Ok(0));
    assert_eq!(get_amount_b_delta(ONE, 2 * ONE, 1000, false), Ok(1000));
    assert_eq!(get_amount_b_delta(ONE, ONE + ONE / 3, 1000, true), Ok(333));
}

#[test]
fn amount_b_past_128_bits_is_refused() {
    assert_eq!(get_amount_b_delta(0, 1 << 64, 1 << 64, false), Err(Errors::MathError));
    assert_eq!(get_amount_b_delta(0, 1 << 64, (1 << 64) - 1, false), Ok((1 << 64) - 1));
    assert_eq!(get_amount_b_delta(0, u128::MAX, 2, false), Err(Errors::MathError));
}

#[test]
fn new_price_from_input() {
    assert_eq!(
        get_new_sqrt_price_from_input(ONE, DEPTH, 1_000_000_000, true),
        Ok(18428315757951600015)
    );
    assert_eq!(
        get_new_sqrt_price_from_input(ONE, DEPTH, 1_000_000_000, false),
        Ok(18465190817783261167)
    );
    assert_eq!(get_new_sqrt_price_from_input(ONE, DEPTH, 0, true), Ok(ONE));
    assert_eq!(get_new_sqrt_price_from_input(ONE, DEPTH, 0, false), Ok(ONE));
    assert_eq!(get_new_sqrt_price_from_input(ONE, 1, 1, true), Ok(ONE / 2));
    assert_eq!(get_new_sqrt_price_from_input(ONE, 1, 1, false), Ok(2 * ONE));
}

#[test]
fn new_price_from_input_refused() {
    assert_eq!(get_new_sqrt_price_from_input(ONE, 1 << 64, 1, true), Err(Errors::MathError));
    assert_eq!(get_new_sqrt_price_from_input(ONE, 1, 1 << 64, true), Err(Errors::MathError));
    assert_eq!(get_new_sqrt_price_from_input(1, u128::MAX, u128::MAX, true), Err(Errors::MathError));
    assert_eq!(get_new_sqrt_price_from_input(ONE, 0, 0, true), Err(Errors::DivisionByZero));
    assert_eq!(get_new_sqrt_price_from_input(ONE, 0, 1, false), Err(Errors::DivisionByZero));
    assert_eq!(get_new_sqrt_price_from_input(ONE, 1, 1 << 64, false), Err(Errors::MathError));
    assert_eq!(
        get_new_sqrt_price_from_input(u128::MAX, 1, 1, false),
        Err(Errors::MathError)
    );
}

#[test]
fn new_price_from_output() {
    assert_eq!(
        get_new_sqrt_price_from_output(ONE, DEPTH, 1_000_000_000, true),
        Ok(18428297329635842065)
    );
    assert_eq!(
        get_new_sqrt_price_from_output(ONE, DEPTH, 1_000_000_000, false),
        Ok(18465209282992544160)
    );
    assert_eq!(get_new_sqrt_price_from_output(ONE, DEPTH, 0, true), Ok(ONE));
    assert_eq!(get_new_sqrt_price_from_output(ONE, DEPTH, 0, false), Ok(ONE));
    assert_eq!(get_new_sqrt_price_from_output(ONE, 2, 1, true), Ok(ONE / 2));
    assert_eq!(get_new_sqrt_price_from_output(ONE, 2, 1, false), Ok(2 * ONE));
}

#[test]
fn new_price_from_output_refused() {
    assert_eq!(get_new_sqrt_price_from_output(ONE, 1, 1 << 64, true), Err(Errors::MathError));
    assert_eq!(get_new_sqrt_price_from_output(ONE, 0, 1, true), Err(Errors::DivisionByZero));
    assert_eq!(get_new_sqrt_price_from_output(ONE, 1, 2, true), Err(Errors::MathError));
    assert_eq!(get_new_sqrt_price_from_output(ONE, 1 << 64, 1, false), Err(Errors::MathError));
    assert_eq!(get_new_sqrt_price_from_output(ONE, 1, 1 << 64, false), Err(Errors::MathError));
    assert_eq!(
        get_new_sqrt_price_from_output(ONE, 1, 1, false),
        Err(Errors::InsufficientLiquidity)
    );
    assert_eq!(
        get_new_sqrt_price_from_output(ONE, 5, 7, false),
        Err(Errors::InsufficientLiquidity)
    );
}

#[test]
fn step_between_equal_prices_does_nothing() {
    assert_eq!(compute_swap_step(ONE, ONE, DEPTH, 1000, 3000, true), Ok((0, 0, ONE, 0)));
    assert_eq!(compute_swap_step(ONE, ONE, DEPTH, 1000, 3000, false), Ok((0, 0, ONE, 0)));
    assert_eq!(compute_swap_step(5, 5, 0, 0, 2_000_000, true), Ok((0, 0, 5, 0)));
}

#[test]
fn step_with_a_fee_rate_of_the_whole_is_refused() {
    assert_eq!(
        compute_swap_step(ONE, BELOW, DEPTH, 1000, 1_000_000, true),
        Err(Errors::InvalidFeeRate)
    );
    assert_eq!(
        compute_swap_step(ONE, BELOW, DEPTH, 1000, 1_000_001, false),
        Err(Errors::InvalidFeeRate)
    );
    assert_eq!(
        compute_swap_step(ONE, ABOVE, DEPTH, 1000, u128::MAX, true),
        Err(Errors::InvalidFeeRate)
    );
}

#[test]
fn exact_input_that_stops_short() {
    assert_eq!(
        compute_swap_step(ONE, BELOW, DEPTH, 1_000_000_000, 3000, true),
        Ok((1_000_000_000, 996006981, 18428370987834680439, 3_000_000))
    );
    assert_eq!(
        compute_swap_step(ONE, ABOVE, DEPTH, 1_000_000_000, 3000, true),
        Ok((1_000_000_000, 996006981, 18465135477551040038, 3_000_000))
    );
}

#[test]
fn exact_input_that_reaches_the_target() {
    assert_eq!(
        compute_swap_step(ONE, BELOW, DEPTH, 10_000_000_000, 3000, true),
        Ok((5027351678, 4987272070, BELOW, 15082055))
    );
    assert_eq!(
        compute_swap_step(ONE, ABOVE, DEPTH, 10_000_000_000, 3000, true),
        Ok((5027351678, 4987272070, ABOVE, 15082055))
    );
}

#[test]
fn exact_output_that_stops_short() {
    assert_eq!(
        compute_swap_step(ONE, BELOW, DEPTH, 1_000_000_000, 3000, false),
        Ok((1004013040, 1_000_000_000, 18428297329635842065, 3012039))
    );
    assert_eq!(
        compute_swap_step(ONE, ABOVE, DEPTH, 1_000_000_000, 3000, false),
        Ok((1004013040, 1_000_000_000, 18465209282992544160, 3012039))
    );
}

#[test]
fn exact_output_that_reaches_the_target() {
    assert_eq!(
        compute_swap_step(ONE, BELOW, DEPTH, 10_000_000_000, 3000, false),
        Ok((5027351678, 4987272070, BELOW, 15082055))
    );
    assert_eq!(
        compute_swap_step(ONE, ABOVE, DEPTH, 10_000_000_000, 3000, false),
        Ok((5027351678, 4987272070, ABOVE, 15082055))
    );
}

#[test]
fn step_without_a_fee() {
    assert_eq!(
        compute_swap_step(ONE, BELOW, 1_000_000, 100, 0, true),
        Ok((100, 99, 18444899583751176498, 0))
    );
    assert_eq!(
        compute_swap_step(ONE, ABOVE, 1_000_000, 6000, 0, true),
        Ok((5012, 4987, ABOVE, 0))
    );
}

#[test]
fn input_less_fee_is_the_net_input() {
    for remaining in [1u128, 999, 1_000_000_000, 10_000_000_000] {
        for fee_rate in [0u128, 1, 255, 3000, 999_999] {
            for target in [BELOW, ABOVE] {
                let (amount_in, _, next, fee) =
                    compute_swap_step(ONE, target, DEPTH, remaining, fee_rate, true).unwrap();
                let whole = if target < ONE {
                    get_amount_a_delta(target, ONE, DEPTH, true).unwrap()
                } else {
                    get_amount_b_delta(ONE, target, DEPTH, true).unwrap()
                };
                let budget = remaining * (1_000_000 - fee_rate) / 1_000_000;
                let net = if budget >= whole { whole } else { budget };
                assert_eq!(amount_in - fee, net);
                assert!(amount_in <= remaining);
                assert!(next >= BELOW && next <= ABOVE);
            }
        }
    }
}

#[test]
fn step_toward_price_zero_is_refused() {
    assert_eq!(compute_swap_step(ONE, 0, DEPTH, 1000, 3000, true), Err(Errors::DivisionByZero));
    assert_eq!(
        compute_swap_step(ONE, 0, DEPTH, 1000, 3000, false),
        Ok((1003, 1000, 18446744055262807543, 3))
    );
}

#[test]
fn step_past_128_bits_is_refused() {
    assert_eq!(
        compute_swap_step(ONE, BELOW, DEPTH, u128::MAX, 3000, true),
        Err(Errors::MathError)
    );
    assert_eq!(
        compute_swap_step(ONE, BELOW, 1 << 64, 1000, 3000, true),
        Err(Errors::MathError)
    );
    assert_eq!(
        compute_swap_step(ONE, ABOVE, u128::MAX, 1000, 3000, false),
        Err(Errors::MathError)
    );
}

#[test]
fn failure_to_solve_the_price_is_a_math_error() {
    assert_eq!(
        compute_swap_step(ONE, 2 * ONE, 0, 0, 0, true),
        Ok((0, 0, 2 * ONE, 0))
    );
    assert_eq!(compute_swap_step(3 * ONE, ONE, 1 << 63, 1, 0, true), Err(Errors::MathError));
    assert_eq!(
        compute_swap_step(1 << 100, 1, 1, 1, 0, true),
        Ok((1, 68719476735, 18446744073441116160, 0))
    );
}

#[test]
fn output_stays_within_what_the_liquidity_holds() {
    for remaining in [1u128, 999, 1_000_000_000, 10_000_000_000, 1 << 60] {
        for fee_rate in [0u128, 255, 3000] {
            for exact_in in [true, false] {
                let (_, out, _, _) =
                    compute_swap_step(ONE, BELOW, DEPTH, remaining, fee_rate, exact_in).unwrap();
                assert!(out <= get_amount_b_delta(BELOW, ONE, DEPTH, false).unwrap());
                let (_, out, _, _) =
                    compute_swap_step(ONE, ABOVE, DEPTH, remaining, fee_rate, exact_in).unwrap();
                assert!(out <= get_amount_a_delta(ONE, ABOVE, DEPTH, false).unwrap());
            }
        }
    }
}

#[test]
fn input_of_asset_b_pays_for_the_way_of_the_price() {
    for remaining in [1u128, 7, 999, 123_456_789, 1_000_000_000] {
        for fee_rate in [0u128, 255, 3000] {
            let (amount_in, _, next, fee) =
                compute_swap_step(ONE, ABOVE, DEPTH, remaining, fee_rate, true).unwrap();
            let moved = get_amount_b_delta(ONE, next, DEPTH, true).unwrap();
            assert!(next < ABOVE);
            assert!(moved <= amount_in - fee);
            assert!(amount_in - fee - moved <= 1);
        }
    }
}

#[test]
fn input_of_asset_a_pays_for_the_way_of_the_price_to_within_rounding() {
    for (current, target, depth) in [
        (ONE, BELOW, DEPTH),
        (ONE, BELOW, 1_000_000),
        (ONE + 1, ONE / 2, 3),
        (4295048016 * 2, 4295048016, 1 << 40),
        (1 << 90, 1 << 89, 1 << 30),
    ] {
        for remaining in [1u128, 7, 999, 123_456_789, 1_000_000_000] {
            for fee_rate in [0u128, 255, 3000] {
                let (amount_in, _, next, fee) =
                    compute_swap_step(current, target, depth, remaining, fee_rate, true).unwrap();
                let whole = get_amount_a_delta(target, current, depth, true).unwrap();
                let net = amount_in - fee;
                if remaining * (1_000_000 - fee_rate) / 1_000_000 >= whole {
                    assert_eq!(next, target);
                    assert_eq!(net, whole);
                    continue;
                }
                assert!(next >= target && next <= current);
                let moved = get_amount_a_delta(next, current, depth, true).unwrap();
                assert!(net <= moved + (1u128 << 64) / current + 1);
                assert!(moved <= net + net / next + (depth << 64) / next / current + 1);
            }
        }
    }
}
