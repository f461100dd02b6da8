use vstd::prelude::*;

verus! {

/// The record of one initialized price boundary of a pool.
#[derive(Clone, Copy, Debug, PartialEq, Eq, Structural)]
pub struct Tick {
    pub tick_index: i32,
    /// What is added to the active liquidity when the price rises across this tick.
    pub liquidity_net: i128,
    pub fee_growth_outside_a: u128,
    pub fee_growth_outside_b: u128,
    pub initialized: bool,
    pub bump: u8,
}

} // verus!
