use crate::math::tick_math::{sqrt_price_at_tick, strictly_rising, tick_in_range, MAX_TICK};
use vstd::prelude::*;

verus! {

/// The address of an account: 32 bytes.
#[derive(Clone, Copy, Debug, PartialEq, Eq)]
pub struct Pubkey {
    pub bytes: [u8; 32],
}

/// The state of the market of one pair of assets.
#[derive(Clone, Debug, PartialEq, Eq)]
pub struct Pool {
    pub pool_authority: Pubkey,
    pub token_a_mint: Pubkey,
    pub token_b_mint: Pubkey,
    pub token_a_vault: Pubkey,
    pub token_b_vault: Pubkey,
    /// The square root of the price of asset A in asset B, in the 64.64 format.
    pub sqrt_price: u128,
    pub tick_current: i32,
    /// The liquidity that is active at the current tick.
    pub liquidity: u128,
    pub tick_spacing: u16,
    /// The indices of the initialized ticks, in rising order.
    pub initialized_ticks: Vec<i32>,
    /// The fee rate, in parts per million.
    pub fee: u8,
    pub fee_growth_global_a: u128,
    pub fee_growth_global_b: u128,
    pub protocol_fee_a: u128,
    pub protocol_fee_b: u128,
    pub bump: u8,
}

impl Pool {
    /// Whether two states of a pool name the same accounts and have the same terms:
    /// all that no operation on a pool changes.
    pub open spec fn same_terms(&self, other: Pool) -> bool {
        &&& self.pool_authority == other.pool_authority
        &&& self.token_a_mint == other.token_a_mint
        &&& self.token_b_mint == other.token_b_mint
        &&& self.token_a_vault == other.token_a_vault
        &&& self.token_b_vault == other.token_b_vault
        &&& self.tick_spacing == other.tick_spacing
        &&& self.fee == other.fee
        &&& self.protocol_fee_a == other.protocol_fee_a
        &&& self.protocol_fee_b == other.protocol_fee_b
        &&& self.bump == other.bump
    }

    /// What every pool keeps: the current tick is the tick whose bracket of prices
    /// holds the current price, and the initialized ticks lie on the curve and rise
    /// strictly.
    pub open spec fn well_formed(&self) -> bool {
        &&& price_in_bracket(self.tick_current, self.sqrt_price)
        &&& strictly_rising(self.initialized_ticks@)
        &&& forall|i: int|
            0 <= i < self.initialized_ticks@.len() ==> tick_in_range(
                #[trigger] self.initialized_ticks@[i] as int,
            )
    }
}

/// Whether `tick` lies on the curve and `sqrt_price` lies in its bracket: not below
/// the price of the tick and below the price of the next one. The last tick of the
/// curve has its own price only.
pub open spec fn price_in_bracket(tick: i32, sqrt_price: u128) -> bool {
    &&& tick_in_range(tick as int)
    &&& sqrt_price_at_tick(tick as int) <= sqrt_price
    &&& tick < MAX_TICK ==> sqrt_price < sqrt_price_at_tick(tick + 1)
    &&& tick == MAX_TICK ==> sqrt_price == sqrt_price_at_tick(MAX_TICK as int)
}

} // verus!
