use clmm_dex::errors::{ErrorCode, Errors};
use clmm_dex::instructions::initialize_pool::initialize_pool_handler;
use clmm_dex::instructions::provide_liquidity::provide_liquidity_handler;
use clmm_dex::instructions::remove_liquidity::remove_liquidity_handler;
use clmm_dex::math::compute_amount::{amounts_for_sqrt_prices, compute_amount};
use clmm_dex::math::tick_math::{MAX_TICK, MIN_TICK};
use clmm_dex::state::pool::{Pool, Pubkey};
use clmm_dex::state::position::Position;
use clmm_dex::state::tick::Tick;

const ONE: u128 = 1 << 64;

fn key(byte: u8) -> Pubkey {
    Pubkey { bytes: [byte; 32] }
}

fn pool_at(sqrt_price: u128) -> Pool {
    initialize_pool_handler(key(1), key(2), key(3), key(4), key(5), 254, sqrt_price, 1, 0, 0, 0)
        .unwrap()
}

fn blank() -> Tick {
    Tick {
        tick_index: 0,
        liquidity_net: 0,
        fee_growth_outside_a: 0,
        fee_growth_outside_b: 0,
        initialized: false,
        bump: 0,
    }
}

fn record(tick_index: i32, liquidity_net: i128, bump: u8) -> Tick {
    Tick {
        tick_index,
        liquidity_net,
        fee_growth_outside_a: 0,
        fee_growth_outside_b: 0,
        initialized: true,
        bump,
    }
}

#[test]
fn error_code_becomes_the_error_of_the_same_name() {
    assert_eq!(Errors::from(ErrorCode::MultiplicationOverflow), Errors::MultiplicationOverflow);
    assert_eq!(Errors::from(ErrorCode::DivisionByZero), Errors::DivisionByZero);
    assert_eq!(Errors::from(ErrorCode::InvalidTickRange), Errors::InvalidTickRange);
}

#[test]
fn amounts_inside_the_range() {
    assert_eq!(compute_amount(1_000_000, 100, -100, 0), Ok((4987, 4987)));
    assert_eq!(compute_amount(5_000_000, 100, -100, 0), Ok((24936, 24936)));
    assert_eq!(compute_amount(123456789012, 300, -40, 7), Ok((1794740767, 289869786)));
}

#[test]
fn amounts_below_the_range_are_all_asset_a() {
    assert_eq!(compute_amount(1_000_000, 100, -100, -200), Ok((9999, 0)));
    assert_eq!(compute_amount(1_000_000, 100, -100, -100), Ok((9999, 0)));
    assert_eq!(compute_amount(1_000_000, 100, -100, MIN_TICK), Ok((9999, 0)));
}

#[test]
fn amounts_above_the_range_are_all_asset_b() {
    assert_eq!(compute_amount(1_000_000, 100, -100, 100), Ok((0, 9999)));
    assert_eq!(compute_amount(1_000_000, 100, -100, 250), Ok((0, 9999)));
    assert_eq!(compute_amount(1_000_000, 100, -100, MAX_TICK), Ok((0, 9999)));
}

#[test]
fn amounts_of_no_liquidity_are_zero() {
    assert_eq!(compute_amount(0, 100, -100, 0), Ok((0, 0)));
}

#[test]
fn amounts_of_a_range_that_does_not_rise_are_refused() {
    assert_eq!(compute_amount(1_000_000, -100, 100, 0), Err(Errors::InvalidTickRange));
    assert_eq!(compute_amount(1_000_000, 100, 100, 0), Err(Errors::InvalidTickRange));
    assert_eq!(compute_amount(0, 5, 5, 5), Err(Errors::InvalidTickRange));
}

#[test]
fn amounts_at_a_tick_off_the_curve_are_refused() {
    assert_eq!(compute_amount(1_000_000, MAX_TICK + 1, -100, 0), Err(Errors::InvalidTick));
    assert_eq!(compute_amount(1_000_000, 100, MIN_TICK - 1, 0), Err(Errors::InvalidTick));
    assert_eq!(compute_amount(1_000_000, 100, -100, MAX_TICK + 1), Err(Errors::InvalidTick));
    assert_eq!(compute_amount(1_000_000, MIN_TICK - 1, MAX_TICK + 1, 0), Err(Errors::InvalidTick));
}

#[test]
fn amounts_of_too_much_liquidity_are_refused() {
    assert_eq!(compute_amount(1 << 64, 100, -100, 0), Err(Errors::MultiplicationOverflow));
    assert_eq!(compute_amount(1 << 100, 100, -100, 200), Err(Errors::MultiplicationOverflow));
    assert_eq!(
        compute_amount(1 << 63, 100, -100, 0),
        Ok((45999465757534026, 45999465757534027))
    );
}

#[test]
fn amounts_grow_with_the_liquidity() {
    let mut last = (0u128, 0u128);
    for liquidity in [0u128, 1, 2, 10, 999, 1000, 1_000_000, 1 << 40, (1 << 64) - 1] {
        for current in [-200, -100, -1, 0, 57, 100, 200] {
            let lower = compute_amount(liquidity, 100, -100, current).unwrap();
            let higher = compute_amount(liquidity + 1, 100, -100, current);
            if let Ok(higher) = higher {
                assert!(lower.0 <= higher.0);
                assert!(lower.1 <= higher.1);
            }
        }
        let amounts = compute_amount(liquidity, 100, -100, 0).unwrap();
        assert!(last.0 <= amounts.0 && last.1 <= amounts.1);
        last = amounts;
    }
}

#[test]
fn amounts_between_prices() {
    assert_eq!(amounts_for_sqrt_prices(1000, ONE, 2 * ONE, ONE), Ok((500, 0)));
    assert_eq!(amounts_for_sqrt_prices(1000, ONE, 2 * ONE, ONE / 2), Ok((500, 0)));
    assert_eq!(amounts_for_sqrt_prices(1000, ONE, 2 * ONE, 2 * ONE), Ok((0, 1000)));
    assert_eq!(amounts_for_sqrt_prices(1000, ONE, 2 * ONE, 5 * ONE), Ok((0, 1000)));
    assert_eq!(amounts_for_sqrt_prices(1000, ONE, 4 * ONE, 2 * ONE), Ok((250, 1000)));
    assert_eq!(amounts_for_sqrt_prices(1000, ONE, 3 * ONE, 2 * ONE), Ok((166, 1000)));
}

#[test]
fn amounts_between_prices_refused() {
    assert_eq!(
        amounts_for_sqrt_prices(1000, 2 * ONE, ONE, ONE),
        Err(ErrorCode::InvalidTickRange)
    );
    assert_eq!(
        amounts_for_sqrt_prices(1000, 2 * ONE, ONE, 3 * ONE),
        Err(ErrorCode::InvalidTickRange)
    );
    assert_eq!(amounts_for_sqrt_prices(1000, 0, ONE, 0), Err(ErrorCode::DivisionByZero));
    assert_eq!(
        amounts_for_sqrt_prices(1 << 64, ONE, 2 * ONE, ONE),
        Err(ErrorCode::MultiplicationOverflow)
    );
    assert_eq!(
        amounts_for_sqrt_prices(1 << 64, 0, ONE, 0),
        Err(ErrorCode::MultiplicationOverflow)
    );
    assert_eq!(
        amounts_for_sqrt_prices(1 << 65, ONE, 2 * ONE, 3 * ONE),
        Err(ErrorCode::MultiplicationOverflow)
    );
}

#[test]
fn new_pool_at_price_one() {
    let pool = pool_at(ONE);
    assert_eq!(
        pool,
        Pool {
            pool_authority: key(1),
            token_a_mint: key(2),
            token_b_mint: key(3),
            token_a_vault: key(4),
            token_b_vault: key(5),
            sqrt_price: ONE,
            tick_current: 0,
            liquidity: 0,
            tick_spacing: 1,
            initialized_ticks: vec![0],
            fee: 0,
            fee_growth_global_a: 0,
            fee_growth_global_b: 0,
            protocol_fee_a: 0,
            protocol_fee_b: 0,
            bump: 254,
        }
    );
}

#[test]
fn new_pool_between_two_ticks() {
    let pool =
        initialize_pool_handler(key(1), key(2), key(3), key(4), key(5), 9, ONE - 1, 60, 30, 11, 12)
            .unwrap();
    assert_eq!(pool.sqrt_price, ONE - 1);
    assert_eq!(pool.tick_current, -1);
    assert_eq!(pool.initialized_ticks, vec![-1]);
    assert_eq!(pool.liquidity, 0);
    assert_eq!(pool.tick_spacing, 60);
    assert_eq!(pool.fee, 30);
    assert_eq!(pool.fee_growth_global_a, 11);
    assert_eq!(pool.fee_growth_global_b, 12);
    assert_eq!(pool.protocol_fee_a, 0);
    assert_eq!(pool.protocol_fee_b, 0);
}

#[test]
fn new_pool_at_a_price_off_the_curve_is_refused() {
    assert_eq!(
        initialize_pool_handler(key(1), key(2), key(3), key(4), key(5), 9, 0, 1, 0, 0, 0),
        Err(Errors::InvalidTick)
    );
    assert_eq!(
        initialize_pool_handler(key(1), key(2), key(3), key(4), key(5), 9, u128::MAX, 1, 0, 0, 0),
        Err(Errors::InvalidTick)
    );
}

#[test]
fn provision_around_the_current_tick_takes_both_assets() {
    let mut pool = pool_at(ONE);
    let mut lower = blank();
    let mut upper = blank();
    let provided = provide_liquidity_handler(
        &mut pool, &mut lower, &mut upper, key(9), -100, 100, 1_000_000, 250, 251, 252,
    );
    let position = Position {
        owner: key(9),
        tick_lower: -100,
        tick_upper: 100,
        liquidity: 1_000_000,
        fee_growth_inside_a: 0,
        fee_growth_inside_b: 0,
        token_a_earned: 0,
        token_b_earned: 0,
        bump: 250,
    };
    assert_eq!(provided, Ok((position, 4987, 4987)));
    assert_eq!(pool.liquidity, 1_000_000);
    assert_eq!(pool.initialized_ticks, vec![-100, 0, 100]);
    assert_eq!(pool.tick_current, 0);
    assert_eq!(pool.sqrt_price, ONE);
    assert_eq!(lower, record(-100, 1_000_000, 251));
    assert_eq!(upper, record(100, -1_000_000, 252));
}

#[test]
fn provision_beside_the_current_tick_leaves_the_active_liquidity() {
    let mut pool = pool_at(ONE);
    let mut lower = blank();
    let mut upper = blank();
    let provided = provide_liquidity_handler(
        &mut pool, &mut lower, &mut upper, key(9), 100, 200, 1_000_000, 0, 0, 0,
    )
    .unwrap();
    assert_eq!((provided.1, provided.2), (4962, 0));
    assert_eq!(pool.liquidity, 0);
    assert_eq!(pool.initialized_ticks, vec![0, 100, 200]);
    let provided = provide_liquidity_handler(
        &mut pool, &mut lower, &mut upper, key(9), 100, 200, 500, 0, 0, 0,
    )
    .unwrap();
    assert_eq!((provided.1, provided.2), (2, 0));
    assert_eq!(lower.liquidity_net, 1_000_500);
    assert_eq!(upper.liquidity_net, -1_000_500);
    assert_eq!(pool.initialized_ticks, vec![0, 100, 200]);
    let mut below = blank();
    let mut zero = blank();
    let provided = provide_liquidity_handler(
        &mut pool, &mut below, &mut zero, key(9), -200, 0, 1_000_000, 0, 0, 0,
    )
    .unwrap();
    assert_eq!((provided.1, provided.2), (0, 9949));
    assert_eq!(pool.liquidity, 0);
    assert_eq!(pool.initialized_ticks, vec![-200, 0, 100, 200]);
    let provided = provide_liquidity_handler(
        &mut pool, &mut zero, &mut lower, key(9), 0, 100, 1_000_000, 0, 0, 0,
    )
    .unwrap();
    assert_eq!((provided.1, provided.2), (4987, 0));
    assert_eq!(pool.liquidity, 1_000_000);
    assert_eq!(zero.liquidity_net, 0);
    assert_eq!(lower.liquidity_net, 500);
}

#[test]
fn provision_refused_leaves_all_as_it_was() {
    let mut pool = pool_at(ONE);
    let before = pool.clone();
    let mut lower = blank();
    let mut upper = blank();
    let mut refused = |lower_tick: i32, upper_tick: i32, liquidity: u128| {
        let result = provide_liquidity_handler(
            &mut pool, &mut lower, &mut upper, key(9), lower_tick, upper_tick, liquidity, 0, 0, 0,
        );
        assert_eq!(pool, before);
        assert_eq!(lower, blank());
        assert_eq!(upper, blank());
        result.unwrap_err()
    };
    assert_eq!(refused(100, -100, 1000), Errors::InvalidTickRange);
    assert_eq!(refused(100, 100, 1000), Errors::InvalidTickRange);
    assert_eq!(refused(MIN_TICK - 1, 100, 1000), Errors::InvalidTick);
    assert_eq!(refused(-100, MAX_TICK + 1, 1000), Errors::InvalidTick);
    assert_eq!(refused(-100, 100, 1 << 127), Errors::MultiplicationOverflow);
    assert_eq!(refused(-100, 100, 1 << 64), Errors::MultiplicationOverflow);
}

#[test]
fn provision_of_an_amount_past_64_bits_is_refused() {
    let mut pool = pool_at(4295048016);
    assert_eq!(pool.tick_current, MIN_TICK);
    let before = pool.clone();
    let mut lower = blank();
    let mut upper = blank();
    assert_eq!(
        provide_liquidity_handler(
            &mut pool, &mut lower, &mut upper, key(9), MIN_TICK, -443000, 1 << 40, 0, 0, 0
        ),
        Err(Errors::TokenMaxExceeded)
    );
    assert_eq!(pool, before);
    assert_eq!(lower, blank());
    assert_eq!(upper, blank());
}

#[test]
fn provision_with_the_record_of_another_tick_is_refused() {
    let mut pool = pool_at(ONE);
    let mut lower = record(-99, 5, 0);
    let mut upper = blank();
    assert_eq!(
        provide_liquidity_handler(
            &mut pool, &mut lower, &mut upper, key(9), -100, 100, 1000, 0, 0, 0
        ),
        Err(Errors::InvalidTick)
    );
    let mut lower = blank();
    let mut upper = record(101, 5, 0);
    assert_eq!(
        provide_liquidity_handler(
            &mut pool, &mut lower, &mut upper, key(9), -100, 100, 1000, 0, 0, 0
        ),
        Err(Errors::InvalidTick)
    );
}

#[test]
fn provision_past_the_range_of_the_net_liquidity_is_refused() {
    let mut pool = pool_at(ONE);
    let mut lower = record(-100, i128::MAX, 0);
    let mut upper = blank();
    assert_eq!(
        provide_liquidity_handler(&mut pool, &mut lower, &mut upper, key(9), -100, 100, 1, 0, 0, 0),
        Err(Errors::MultiplicationOverflow)
    );
    let mut lower = blank();
    let mut upper = record(100, i128::MIN, 0);
    assert_eq!(
        provide_liquidity_handler(&mut pool, &mut lower, &mut upper, key(9), -100, 100, 1, 0, 0, 0),
        Err(Errors::MultiplicationOverflow)
    );
    pool.liquidity = u128::MAX;
    let mut lower = blank();
    let mut upper = blank();
    assert_eq!(
        provide_liquidity_handler(&mut pool, &mut lower, &mut upper, key(9), -100, 100, 1, 0, 0, 0),
        Err(Errors::MultiplicationOverflow)
    );
}

#[test]
fn removal_right_after_provision_pays_back_what_was_paid_in() {
    for (lower_tick, upper_tick, liquidity) in
        [(-100, 100, 1_000_000u128), (100, 200, 77_777), (-300, -5, 123_456_789), (-1, 1, 1 << 50)]
    {
        let mut pool = pool_at(ONE);
        let before = pool.liquidity;
        let mut lower = blank();
        let mut upper = blank();
        let (position, amount_a, amount_b) = provide_liquidity_handler(
            &mut pool, &mut lower, &mut upper, key(9), lower_tick, upper_tick, liquidity, 0, 0, 0,
        )
        .unwrap();
        assert_eq!(remove_liquidity_handler(&mut pool, position), Ok((amount_a, amount_b)));
        assert_eq!(pool.liquidity, before);
    }
}

#[test]
fn removal_leaves_the_tick_list() {
    let mut pool = pool_at(ONE);
    let mut lower = blank();
    let mut upper = blank();
    let (position, _, _) = provide_liquidity_handler(
        &mut pool, &mut lower, &mut upper, key(9), -100, 100, 1_000_000, 0, 0, 0,
    )
    .unwrap();
    assert_eq!(remove_liquidity_handler(&mut pool, position), Ok((4987, 4987)));
    assert_eq!(pool.initialized_ticks, vec![-100, 0, 100]);
    assert_eq!(pool.liquidity, 0);
}

#[test]
fn removal_of_a_range_beside_the_current_tick_leaves_the_active_liquidity() {
    let mut pool = pool_at(ONE);
    pool.liquidity = 10;
    let position = Position {
        owner: key(9),
        tick_lower: 100,
        tick_upper: 200,
        liquidity: 1_000_000,
        fee_growth_inside_a: 0,
        fee_growth_inside_b: 0,
        token_a_earned: 0,
        token_b_earned: 0,
        bump: 0,
    };
    assert_eq!(remove_liquidity_handler(&mut pool, position), Ok((4962, 0)));
    assert_eq!(pool.liquidity, 10);
}

#[test]
fn removal_refused_leaves_the_pool() {
    let mut pool = pool_at(ONE);
    pool.liquidity = 10;
    let before = pool.clone();
    let mut position = Position {
        owner: key(9),
        tick_lower: -100,
        tick_upper: 100,
        liquidity: 11,
        fee_growth_inside_a: 0,
        fee_growth_inside_b: 0,
        token_a_earned: 0,
        token_b_earned: 0,
        bump: 0,
    };
    assert_eq!(remove_liquidity_handler(&mut pool, position), Err(Errors::MathError));
    assert_eq!(pool, before);
    position.tick_lower = 100;
    assert_eq!(remove_liquidity_handler(&mut pool, position), Err(Errors::InvalidTickRange));
    position.tick_lower = MIN_TICK - 1;
    assert_eq!(remove_liquidity_handler(&mut pool, position), Err(Errors::InvalidTick));
    position.tick_lower = MIN_TICK;
    position.tick_upper = -443000;
    position.liquidity = 1 << 40;
    pool.tick_current = MIN_TICK;
    assert_eq!(remove_liquidity_handler(&mut pool, position), Err(Errors::TokenMaxExceeded));
    position.liquidity = 1 << 64;
    assert_eq!(remove_liquidity_handler(&mut pool, position), Err(Errors::MultiplicationOverflow));
}
