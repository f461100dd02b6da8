use crate::state::pool::Pubkey;
use vstd::prelude::*;

verus! {

/// The liquidity that one owner holds in one range of a pool.
#[derive(Clone, Copy, Debug, PartialEq, Eq)]
pub struct Position {
    pub owner: Pubkey,
    pub tick_lower: i32,
    pub tick_upper: i32,
    pub liquidity: u128,
    pub fee_growth_inside_a: u128,
    pub fee_growth_inside_b: u128,
    pub token_a_earned: u64,
    pub token_b_earned: u64,
    pub bump: u8,
}

} // verus!
