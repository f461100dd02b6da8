use clmm_dex::errors::Errors;
use clmm_dex::math::tick_math::{cross_tick, get_next_tick, insert_tick};
use clmm_dex::state::tick::Tick;

fn record(tick_index: i32, outside_a: u128, outside_b: u128) -> Tick {
    Tick {
        tick_index,
        liquidity_net: 77,
        fee_growth_outside_a: outside_a,
        fee_growth_outside_b: outside_b,
        initialized: true,
        bump: 3,
    }
}

#[test]
fn next_tick_below() {
    let ticks = vec![-100, -20, 0, 40, 100];
    assert_eq!(get_next_tick(0, &ticks, true), Ok(-20));
    assert_eq!(get_next_tick(-20, &ticks, true), Ok(-100));
    assert_eq!(get_next_tick(41, &ticks, true), Ok(40));
    assert_eq!(get_next_tick(1000, &ticks, true), Ok(100));
}

#[test]
fn next_tick_above() {
    let ticks = vec![-100, -20, 0, 40, 100];
    assert_eq!(get_next_tick(0, &ticks, false), Ok(40));
    assert_eq!(get_next_tick(-21, &ticks, false), Ok(-20));
    assert_eq!(get_next_tick(40, &ticks, false), Ok(100));
    assert_eq!(get_next_tick(-1000, &ticks, false), Ok(-100));
}

#[test]
fn next_tick_is_strictly_beyond_the_current_one() {
    let ticks = vec![7];
    assert_eq!(get_next_tick(7, &ticks, true), Err(Errors::TickNotFound));
    assert_eq!(get_next_tick(7, &ticks, false), Err(Errors::TickNotFound));
    assert_eq!(get_next_tick(8, &ticks, true), Ok(7));
    assert_eq!(get_next_tick(6, &ticks, false), Ok(7));
}

#[test]
fn next_tick_not_found() {
    let ticks = vec![-100, 0, 100];
    assert_eq!(get_next_tick(-100, &ticks, true), Err(Errors::TickNotFound));
    assert_eq!(get_next_tick(100, &ticks, false), Err(Errors::TickNotFound));
    let none: Vec<i32> = Vec::new();
    assert_eq!(get_next_tick(0, &none, true), Err(Errors::TickNotFound));
    assert_eq!(get_next_tick(0, &none, false), Err(Errors::TickNotFound));
}

#[test]
fn next_tick_in_a_list_out_of_order() {
    let ticks = vec![40, -100, 100, 0, -20];
    assert_eq!(get_next_tick(0, &ticks, true), Ok(-20));
    assert_eq!(get_next_tick(0, &ticks, false), Ok(40));
}

#[test]
fn crossing_with_asset_a_coming_in() {
    let mut tick = record(10, 30, 50);
    assert_eq!(cross_tick(&mut tick, 100, 200, true), Ok(()));
    assert_eq!(tick, record(10, 70, 50));
}

#[test]
fn crossing_with_asset_b_coming_in() {
    let mut tick = record(10, 30, 50);
    assert_eq!(cross_tick(&mut tick, 100, 200, false), Ok(()));
    assert_eq!(tick, record(10, 30, 150));
}

#[test]
fn crossing_below_the_growth_outside_is_refused() {
    let mut tick = record(10, 30, 50);
    assert_eq!(cross_tick(&mut tick, 29, 200, true), Err(Errors::MathError));
    assert_eq!(tick, record(10, 30, 50));
    assert_eq!(cross_tick(&mut tick, 100, 49, false), Err(Errors::MathError));
    assert_eq!(tick, record(10, 30, 50));
    assert_eq!(cross_tick(&mut tick, 30, 0, true), Ok(()));
    assert_eq!(tick, record(10, 0, 50));
}

#[test]
fn insert_keeps_the_order() {
    let mut ticks: Vec<i32> = Vec::new();
    insert_tick(&mut ticks, 0);
    assert_eq!(ticks, vec![0]);
    insert_tick(&mut ticks, 100);
    assert_eq!(ticks, vec![0, 100]);
    insert_tick(&mut ticks, -100);
    assert_eq!(ticks, vec![-100, 0, 100]);
    insert_tick(&mut ticks, 50);
    assert_eq!(ticks, vec![-100, 0, 50, 100]);
}

#[test]
fn insert_holds_no_tick_twice() {
    let mut ticks = vec![-100, 0, 100];
    insert_tick(&mut ticks, 0);
    insert_tick(&mut ticks, -100);
    insert_tick(&mut ticks, 100);
    assert_eq!(ticks, vec![-100, 0, 100]);
}
