use crate::errors::Errors;
use crate::math::curve_laws::lemma_sqrt_price_bounds;
use crate::math::tick_math::{
    get_tick_from_sqrt_price, tick_at_sqrt_price, MAX_SQRT_PRICE, MIN_SQRT_PRICE,
};
use crate::state::pool::{Pool, Pubkey};
use vstd::prelude::*;

verus! {

/// The state of a new pool at the price `sqrt_price_x64`.
///
/// The current tick is the tick of that price, no liquidity is active, the current
/// tick is the one initialized tick, and no protocol fee has been taken. A price
/// that has no tick on the curve is refused with `InvalidTick`.
pub fn initialize_pool_handler(
    pool_authority: Pubkey,
    token_a_mint: Pubkey,
    token_b_mint: Pubkey,
    token_a_vault: Pubkey,
    token_b_vault: Pubkey,
    bump: u8,
    sqrt_price_x64: u128,
    tick_spacing: u16,
    fee: u8,
    fee_growth_global_a: u128,
    fee_growth_global_b: u128,
) -> (r: Result<Pool, Errors>)
    ensures
        !(MIN_SQRT_PRICE <= sqrt_price_x64 <= MAX_SQRT_PRICE) ==> (r matches Err(e) && e
            == Errors::InvalidTick),
        MIN_SQRT_PRICE <= sqrt_price_x64 <= MAX_SQRT_PRICE ==> (r matches Ok(pool) && {
            &&& pool.pool_authority == pool_authority
            &&& pool.token_a_mint == token_a_mint
            &&& pool.token_b_mint == token_b_mint
            &&& pool.token_a_vault == token_a_vault
            &&& pool.token_b_vault == token_b_vault
            &&& pool.bump == bump
            &&& pool.sqrt_price == sqrt_price_x64
            &&& pool.tick_current == tick_at_sqrt_price(sqrt_price_x64 as nat)
            &&& pool.liquidity == 0
            &&& pool.tick_spacing == tick_spacing
            &&& pool.fee == fee
            &&& pool.fee_growth_global_a == fee_growth_global_a
            &&& pool.fee_growth_global_b == fee_growth_global_b
            &&& pool.protocol_fee_a == 0
            &&& pool.protocol_fee_b == 0
            &&& pool.initialized_ticks@ == seq![pool.tick_current]
            &&& pool.well_formed()
        }),
{
    let tick_current = get_tick_from_sqrt_price(sqrt_price_x64)?;
    let mut initialized_ticks: Vec<i32> = Vec::new();
    initialized_ticks.push(tick_current);
    proof {
        assert(initialized_ticks@ =~= seq![tick_current]);
        lemma_sqrt_price_bounds(tick_current as int);
    }
    Ok(
        Pool {
            pool_authority,
            token_a_mint,
            token_b_mint,
            token_a_vault,
            token_b_vault,
            sqrt_price: sqrt_price_x64,
            tick_current,
            liquidity: 0,
            tick_spacing,
            initialized_ticks,
            fee,
            fee_growth_global_a,
            fee_growth_global_b,
            protocol_fee_a: 0,
            protocol_fee_b: 0,
            bump,
        },
    )
}

} // verus!
