use crate::errors::Errors;
use crate::math::compute_amount::{compute_amount, compute_amount_spec};
use crate::math::tick_math::{
    insert_tick, insert_tick_spec, lemma_insert_tick, tick_in_range, MAX_TICK, MIN_TICK,
};
use crate::state::pool::{Pool, Pubkey};
use crate::state::position::Position;
use crate::state::tick::Tick;
use vstd::prelude::*;

verus! {

/// What a provision of liquidity leaves behind and asks for.
pub struct Provision {
    /// The active liquidity of the pool afterwards.
    pub pool_liquidity: u128,
    /// The initialized ticks of the pool afterwards.
    pub initialized_ticks: Seq<i32>,
    pub lower_tick: Tick,
    pub upper_tick: Tick,
    /// The new position.
    pub position: Position,
    /// The amount of asset A that the provider owes.
    pub amount_a: u64,
    /// The amount of asset B that the provider owes.
    pub amount_b: u64,
}

/// The record of the tick `index` as a provision finds or makes it: a record that
/// is not initialized yet becomes an initialized one without liquidity.
pub open spec fn touched_tick_spec(tick: Tick, index: i32, bump: u8) -> Tick {
    if tick.initialized {
        tick
    } else {
        Tick {
            tick_index: index,
            liquidity_net: 0,
            fee_growth_outside_a: 0,
            fee_growth_outside_b: 0,
            initialized: true,
            bump,
        }
    }
}

/// Whether the range from `tick_lower` up to, not including, `tick_upper` holds
/// the current tick.
pub open spec fn range_is_active(tick_lower: i32, tick_upper: i32, tick_current: i32) -> bool {
    tick_lower <= tick_current < tick_upper
}

/// The outcome of providing `liquidity` to the range from `tick_lower` to
/// `tick_upper`: `provide_liquidity_handler` brings this about on every argument.
///
/// The two ticks have to lie on the curve (`InvalidTick`), the lower below the
/// upper (`InvalidTickRange`), and an initialized record has to be that of its
/// tick (`InvalidTick`). The liquidity is added to the net liquidity of the lower
/// tick and taken from that of the upper tick, and added to the active liquidity of
/// the pool where the range holds the current tick; where one of these leaves its
/// range the provision is refused with `MultiplicationOverflow`. A tick whose
/// record is new joins the initialized ticks. The amounts owed are those of
/// `compute_amount_spec`, refused with `TokenMaxExceeded` where one does not fit in
/// 64 bits.
pub open spec fn provide_liquidity_spec(
    pool_liquidity: u128,
    tick_current: i32,
    initialized_ticks: Seq<i32>,
    lower_tick: Tick,
    upper_tick: Tick,
    owner: Pubkey,
    tick_lower: i32,
    tick_upper: i32,
    liquidity: u128,
    position_bump: u8,
    lower_tick_bump: u8,
    upper_tick_bump: u8,
) -> Result<Provision, Errors> {
    let lower = touched_tick_spec(lower_tick, tick_lower, lower_tick_bump);
    let upper = touched_tick_spec(upper_tick, tick_upper, upper_tick_bump);
    let with_lower = if lower_tick.initialized {
        initialized_ticks
    } else {
        insert_tick_spec(initialized_ticks, tick_lower)
    };
    let with_both = if upper_tick.initialized {
        with_lower
    } else {
        insert_tick_spec(with_lower, tick_upper)
    };
    let active = range_is_active(tick_lower, tick_upper, tick_current);
    if !tick_in_range(tick_lower as int) || !tick_in_range(tick_upper as int) {
        Err(Errors::InvalidTick)
    } else if tick_lower >= tick_upper {
        Err(Errors::InvalidTickRange)
    } else if lower.tick_index != tick_lower || upper.tick_index != tick_upper {
        Err(Errors::InvalidTick)
    } else if liquidity > i128::MAX || lower.liquidity_net + liquidity > i128::MAX
        || upper.liquidity_net - liquidity < i128::MIN {
        Err(Errors::MultiplicationOverflow)
    } else if active && pool_liquidity + liquidity > u128::MAX {
        Err(Errors::MultiplicationOverflow)
    } else {
        match compute_amount_spec(liquidity, tick_upper, tick_lower, tick_current) {
            Err(e) => Err(e),
            Ok((amount_a, amount_b)) => if amount_a > u64::MAX || amount_b > u64::MAX {
                Err(Errors::TokenMaxExceeded)
            } else {
                Ok(
                    Provision {
                        pool_liquidity: if active {
                            (pool_liquidity + liquidity) as u128
                        } else {
                            pool_liquidity
                        },
                        initialized_ticks: with_both,
                        lower_tick: Tick {
                            liquidity_net: (lower.liquidity_net + liquidity) as i128,
                            ..lower
                        },
                        upper_tick: Tick {
                            liquidity_net: (upper.liquidity_net - liquidity) as i128,
                            ..upper
                        },
                        position: Position {
                            owner,
                            tick_lower,
                            tick_upper,
                            liquidity,
                            fee_growth_inside_a: 0,
                            fee_growth_inside_b: 0,
                            token_a_earned: 0,
                            token_b_earned: 0,
                            bump: position_bump,
                        },
                        amount_a: amount_a as u64,
                        amount_b: amount_b as u64,
                    },
                )
            },
        }
    }
}

/// The record of a tick as the provision finds or makes it.
fn touched_tick(tick: &Tick, index: i32, bump: u8) -> (r: Tick)
    ensures
        r == touched_tick_spec(*tick, index, bump),
{
    if tick.initialized {
        *tick
    } else {
        Tick {
            tick_index: index,
            liquidity_net: 0,
            fee_growth_outside_a: 0,
            fee_growth_outside_b: 0,
            initialized: true,
            bump,
        }
    }
}

/// Provides `liquidity` to the range from `tick_lower` to `tick_upper` of `pool` in
/// the name of `owner`.
///
/// `lower_tick` and `upper_tick` are the records of the two ticks. On success the
/// pool and the two records are brought up to date, and the new position comes
/// back with the amounts of asset A and asset B that the owner is to pay in. On
/// failure nothing is changed.
pub fn provide_liquidity_handler(
    pool: &mut Pool,
    lower_tick: &mut Tick,
    upper_tick: &mut Tick,
    owner: Pubkey,
    tick_lower: i32,
    tick_upper: i32,
    liquidity: u128,
    position_bump: u8,
    lower_tick_bump: u8,
    upper_tick_bump: u8,
) -> (r: Result<(Position, u64, u64), Errors>)
    ensures
        match provide_liquidity_spec(
            old(pool).liquidity,
            old(pool).tick_current,
            old(pool).initialized_ticks@,
            *old(lower_tick),
            *old(upper_tick),
            owner,
            tick_lower,
            tick_upper,
            liquidity,
            position_bump,
            lower_tick_bump,
            upper_tick_bump,
        ) {
            Ok(p) => {
                &&& r == Ok::<(Position, u64, u64), Errors>((p.position, p.amount_a, p.amount_b))
                &&& final(pool).liquidity == p.pool_liquidity
                &&& final(pool).initialized_ticks@ == p.initialized_ticks
                &&& final(pool).sqrt_price == old(pool).sqrt_price
                &&& final(pool).tick_current == old(pool).tick_current
                &&& final(pool).fee_growth_global_a == old(pool).fee_growth_global_a
                &&& final(pool).fee_growth_global_b == old(pool).fee_growth_global_b
                &&& final(pool).same_terms(*old(pool))
                &&& *final(lower_tick) == p.lower_tick
                &&& *final(upper_tick) == p.upper_tick
            },
            Err(e) => {
                &&& r == Err::<(Position, u64, u64), Errors>(e)
                &&& *final(pool) == *old(pool)
                &&& *final(lower_tick) == *old(lower_tick)
                &&& *final(upper_tick) == *old(upper_tick)
            },
        },
        old(pool).well_formed() ==> final(pool).well_formed(),
{
    if tick_lower < MIN_TICK || tick_lower > MAX_TICK || tick_upper < MIN_TICK || tick_upper
        > MAX_TICK {
        return Err(Errors::InvalidTick);
    }
    if tick_lower >= tick_upper {
        return Err(Errors::InvalidTickRange);
    }
    let lower = touched_tick(lower_tick, tick_lower, lower_tick_bump);
    let upper = touched_tick(upper_tick, tick_upper, upper_tick_bump);
    if lower.tick_index != tick_lower || upper.tick_index != tick_upper {
        return Err(Errors::InvalidTick);
    }
    if liquidity > i128::MAX as u128 {
        return Err(Errors::MultiplicationOverflow);
    }
    let delta = liquidity as i128;
    let lower_net = match lower.liquidity_net.checked_add(delta) {
        Some(n) => n,
        None => { return Err(Errors::MultiplicationOverflow); },
    };
    let upper_net = match upper.liquidity_net.checked_sub(delta) {
        Some(n) => n,
        None => { return Err(Errors::MultiplicationOverflow); },
    };
    let active = tick_lower <= pool.tick_current && pool.tick_current < tick_upper;
    let pool_liquidity = if active {
        match pool.liquidity.checked_add(liquidity) {
            Some(n) => n,
            None => { return Err(Errors::MultiplicationOverflow); },
        }
    } else {
        pool.liquidity
    };
    let (amount_a, amount_b) = compute_amount(liquidity, tick_upper, tick_lower, pool.tick_current)?;
    if amount_a > u64::MAX as u128 || amount_b > u64::MAX as u128 {
        return Err(Errors::TokenMaxExceeded);
    }
    let position = Position {
        owner,
        tick_lower,
        tick_upper,
        liquidity,
        fee_growth_inside_a: 0,
        fee_growth_inside_b: 0,
        token_a_earned: 0,
        token_b_earned: 0,
        bump: position_bump,
    };
    proof {
        let before = pool.initialized_ticks@;
        lemma_insert_tick(before, tick_lower);
        let with_lower = if lower_tick.initialized {
            before
        } else {
            insert_tick_spec(before, tick_lower)
        };
        lemma_insert_tick(with_lower, tick_upper);
    }
    if !lower_tick.initialized {
        insert_tick(&mut pool.initialized_ticks, tick_lower);
    }
    if !upper_tick.initialized {
        insert_tick(&mut pool.initialized_ticks, tick_upper);
    }
    proof {
        let after = pool.initialized_ticks@;
        if old(pool).well_formed() {
            assert forall|i: int| 0 <= i < after.len() implies tick_in_range(
                #[trigger] after[i] as int,
            ) by {
                let t = after[i];
                assert(after.contains(t));
                if t != tick_lower && t != tick_upper {
                    assert(old(pool).initialized_ticks@.contains(t));
                }
            }
        }
    }
    pool.liquidity = pool_liquidity;
    *lower_tick = Tick { liquidity_net: lower_net, ..lower };
    *upper_tick = Tick { liquidity_net: upper_net, ..upper };
    Ok((position, amount_a as u64, amount_b as u64))
}

} // verus!
