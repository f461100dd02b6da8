use crate::errors::Errors;
use crate::instructions::provide_liquidity::{provide_liquidity_spec, range_is_active};
use crate::math::compute_amount::{compute_amount, compute_amount_spec};
use crate::state::pool::{Pool, Pubkey};
use crate::state::position::Position;
use crate::state::tick::Tick;
use vstd::prelude::*;

verus! {

/// The outcome of removing a position, as the active liquidity of the pool
/// afterwards and the amounts of asset A and asset B that go back to the owner:
/// `remove_liquidity_handler` brings this about on every argument.
///
/// The amounts are those of `compute_amount_spec` for the liquidity and the range
/// of the position at the current tick, refused with `TokenMaxExceeded` where one
/// does not fit in 64 bits. Where the range holds the current tick the liquidity
/// of the position leaves the active liquidity, and a pool that holds less is
/// refused with `MathError`.
pub open spec fn remove_liquidity_spec(pool_liquidity: u128, tick_current: i32, position: Position)
    -> Result<(u128, u64, u64), Errors> {
    match compute_amount_spec(
        position.liquidity,
        position.tick_upper,
        position.tick_lower,
        tick_current,
    ) {
        Err(e) => Err(e),
        Ok((amount_a, amount_b)) => if amount_a > u64::MAX || amount_b > u64::MAX {
            Err(Errors::TokenMaxExceeded)
        } else if !range_is_active(position.tick_lower, position.tick_upper, tick_current) {
            Ok((pool_liquidity, amount_a as u64, amount_b as u64))
        } else if pool_liquidity < position.liquidity {
            Err(Errors::MathError)
        } else {
            Ok(((pool_liquidity - position.liquidity) as u128, amount_a as u64, amount_b as u64))
        },
    }
}

/// Removes `position` from `pool` and gives the amounts of asset A and asset B
/// that go back to its owner. The position is used up by the call; the records of
/// its two ticks are left as they are. On failure the pool is not changed.
pub fn remove_liquidity_handler(pool: &mut Pool, position: Position) -> (r: Result<
    (u64, u64),
    Errors,
>)
    ensures
        match remove_liquidity_spec(old(pool).liquidity, old(pool).tick_current, position) {
            Ok((liquidity, amount_a, amount_b)) => {
                &&& r == Ok::<(u64, u64), Errors>((amount_a, amount_b))
                &&& final(pool).liquidity == liquidity
                &&& final(pool).initialized_ticks@ == old(pool).initialized_ticks@
                &&& final(pool).sqrt_price == old(pool).sqrt_price
                &&& final(pool).tick_current == old(pool).tick_current
                &&& final(pool).fee_growth_global_a == old(pool).fee_growth_global_a
                &&& final(pool).fee_growth_global_b == old(pool).fee_growth_global_b
                &&& final(pool).same_terms(*old(pool))
            },
            Err(e) => r == Err::<(u64, u64), Errors>(e) && *final(pool) == *old(pool),
        },
        old(pool).well_formed() ==> final(pool).well_formed(),
{
    let (amount_a, amount_b) = compute_amount(
        position.liquidity,
        position.tick_upper,
        position.tick_lower,
        pool.tick_current,
    )?;
    if amount_a > u64::MAX as u128 || amount_b > u64::MAX as u128 {
        return Err(Errors::TokenMaxExceeded);
    }
    if position.tick_lower <= pool.tick_current && pool.tick_current < position.tick_upper {
        match pool.liquidity.checked_sub(position.liquidity) {
            Some(rest) => {
                pool.liquidity = rest;
            },
            None => {
                return Err(Errors::MathError);
            },
        }
    }
    Ok((amount_a as u64, amount_b as u64))
}

/// A position that is removed right after it was provided, with no swap in
/// between, pays back exactly the amounts that its provision took, and leaves the
/// active liquidity of the pool as it was before the provision.
pub proof fn lemma_remove_undoes_provide(
    pool_liquidity: u128,
    tick_current: i32,
    initialized_ticks: Seq<i32>,
    lower_tick: Tick,
    upper_tick: Tick,
    owner: Pubkey,
    tick_lower: i32,
    tick_upper: i32,
    liquidity: u128,
    position_bump: u8,
    lower_tick_bump: u8,
    upper_tick_bump: u8,
)
    requires
        provide_liquidity_spec(
            pool_liquidity,
            tick_current,
            initialized_ticks,
            lower_tick,
            upper_tick,
            owner,
            tick_lower,
            tick_upper,
            liquidity,
            position_bump,
            lower_tick_bump,
            upper_tick_bump,
        ) is Ok,
    ensures
        ({
            let provided = provide_liquidity_spec(
                pool_liquidity,
                tick_current,
                initialized_ticks,
                lower_tick,
                upper_tick,
                owner,
                tick_lower,
                tick_upper,
                liquidity,
                position_bump,
                lower_tick_bump,
                upper_tick_bump,
            )->Ok_0;
            remove_liquidity_spec(provided.pool_liquidity, tick_current, provided.position) == Ok::<
                (u128, u64, u64),
                Errors,
            >((pool_liquidity, provided.amount_a, provided.amount_b))
        }),
{
}

} // verus!
