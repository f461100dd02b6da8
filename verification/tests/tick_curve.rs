use clmm_dex::errors::Errors;
use clmm_dex::math::tick_math::{
    get_sqrt_price_from_tick, get_tick_from_sqrt_price, MAX_SQRT_PRICE, MAX_TICK, MIN_SQRT_PRICE,
    MIN_TICK,
};

const ONE: u128 = 1 << 64;

#[test]
fn price_at_tick_zero_is_one() {
    assert_eq!(get_sqrt_price_from_tick(0), Ok(ONE));
}

#[test]
fn prices_at_known_ticks() {
    assert_eq!(get_sqrt_price_from_tick(1), Ok(18447666387855959850));
    assert_eq!(get_sqrt_price_from_tick(-1), Ok(18445821805675392312));
    assert_eq!(get_sqrt_price_from_tick(2), Ok(18448588748116922571));
    assert_eq!(get_sqrt_price_from_tick(-2), Ok(18444899583751176498));
    assert_eq!(get_sqrt_price_from_tick(100), Ok(18539204128674405813));
    assert_eq!(get_sqrt_price_from_tick(-100), Ok(18354745142194483562));
    assert_eq!(get_sqrt_price_from_tick(12345), Ok(34195943348800206623));
    assert_eq!(get_sqrt_price_from_tick(-54321), Ok(1220149845509316393));
}

#[test]
fn prices_at_the_ends_of_the_curve() {
    assert_eq!(get_sqrt_price_from_tick(MIN_TICK), Ok(MIN_SQRT_PRICE));
    assert_eq!(get_sqrt_price_from_tick(MAX_TICK), Ok(MAX_SQRT_PRICE));
    assert_eq!(MIN_SQRT_PRICE, 4295048016);
    assert_eq!(MAX_SQRT_PRICE, 79226673521066979257578248091);
}

#[test]
fn tick_off_the_curve_is_refused() {
    assert_eq!(get_sqrt_price_from_tick(MAX_TICK + 1), Err(Errors::InvalidTick));
    assert_eq!(get_sqrt_price_from_tick(MIN_TICK - 1), Err(Errors::InvalidTick));
    assert_eq!(get_sqrt_price_from_tick(i32::MAX), Err(Errors::InvalidTick));
    assert_eq!(get_sqrt_price_from_tick(i32::MIN), Err(Errors::InvalidTick));
}

#[test]
fn price_off_the_curve_is_refused() {
    assert_eq!(get_tick_from_sqrt_price(MIN_SQRT_PRICE - 1), Err(Errors::InvalidTick));
    assert_eq!(get_tick_from_sqrt_price(MAX_SQRT_PRICE + 1), Err(Errors::InvalidTick));
    assert_eq!(get_tick_from_sqrt_price(0), Err(Errors::InvalidTick));
    assert_eq!(get_tick_from_sqrt_price(u128::MAX), Err(Errors::InvalidTick));
}

#[test]
fn tick_of_price_is_the_highest_tick_not_above_it() {
    assert_eq!(get_tick_from_sqrt_price(ONE), Ok(0));
    assert_eq!(get_tick_from_sqrt_price(ONE + 1), Ok(0));
    assert_eq!(get_tick_from_sqrt_price(ONE - 1), Ok(-1));
    assert_eq!(get_tick_from_sqrt_price(18451356105610194921), Ok(5));
    assert_eq!(get_tick_from_sqrt_price(18451356105610194922), Ok(5));
    assert_eq!(get_tick_from_sqrt_price(18451356105610194920), Ok(4));
    assert_eq!(get_tick_from_sqrt_price(MAX_SQRT_PRICE), Ok(MAX_TICK));
    assert_eq!(get_tick_from_sqrt_price(MAX_SQRT_PRICE - 1), Ok(MAX_TICK - 1));
    assert_eq!(get_tick_from_sqrt_price(MIN_SQRT_PRICE), Ok(MIN_TICK));
}

#[test]
fn round_trip_at_chosen_ticks() {
    for tick in [0, 1, -1, 2, -2, 99, 100, -100, 12345, -54321, MIN_TICK, MAX_TICK] {
        let price = get_sqrt_price_from_tick(tick).unwrap();
        assert_eq!(get_tick_from_sqrt_price(price), Ok(tick));
    }
}

#[test]
fn round_trip_across_the_curve() {
    let mut tick = MIN_TICK;
    while tick <= MAX_TICK {
        let price = get_sqrt_price_from_tick(tick).unwrap();
        assert_eq!(get_tick_from_sqrt_price(price), Ok(tick));
        tick += 977;
    }
}

#[test]
fn prices_rise_with_the_tick() {
    let mut tick = MIN_TICK;
    let mut last = get_sqrt_price_from_tick(tick).unwrap();
    while tick < MIN_TICK + 3000 {
        tick += 1;
        let price = get_sqrt_price_from_tick(tick).unwrap();
        assert!(price > last);
        last = price;
    }
    let mut tick = -1500;
    let mut last = get_sqrt_price_from_tick(tick).unwrap();
    while tick < 1500 {
        tick += 1;
        let price = get_sqrt_price_from_tick(tick).unwrap();
        assert!(price > last);
        last = price;
    }
    let mut tick = MAX_TICK - 3000;
    let mut last = get_sqrt_price_from_tick(tick).unwrap();
    while tick < MAX_TICK {
        tick += 1;
        let price = get_sqrt_price_from_tick(tick).unwrap();
        assert!(price > last);
        last = price;
    }
}

#[test]
fn price_follows_the_exact_curve() {
    for tick in [1, -1, 100, -100, 5000, -5000, 200000, -200000, MAX_TICK, MIN_TICK] {
        let price = get_sqrt_price_from_tick(tick).unwrap() as f64;
        let exact = 1.0001_f64.powf(tick as f64 / 2.0) * 18446744073709551616.0;
        assert!((price - exact).abs() / exact < 1e-9);
    }
}

#[test]
fn every_tick_raises_the_price_by_the_same_step() {
    let mut ticks: Vec<i32> = Vec::new();
    ticks.extend(MIN_TICK..MIN_TICK + 2000);
    ticks.extend(-1000..1000);
    ticks.extend(MAX_TICK - 2000..MAX_TICK);
    let mut tick = MIN_TICK;
    while tick < MAX_TICK {
        ticks.push(tick);
        tick += 1013;
    }
    for tick in ticks {
        let here = get_sqrt_price_from_tick(tick).unwrap();
        let next = get_sqrt_price_from_tick(tick + 1).unwrap();
        assert!(here * 10_000_499 <= next * 10_000_000);
        assert!(next * 10_000_000 <= here * 10_000_501);
    }
}
