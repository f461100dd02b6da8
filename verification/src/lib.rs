// A concentrated-liquidity market maker: the price curve over ticks, the
// amounts that liquidity stands for in a range of prices, the step of a swap,
// and the bookkeeping of pools, positions and ticks.
//
// Prices are square roots of the price of asset A in asset B, in a fixed-point
// format with 64 fractional bits. Every function is total on its arguments and
// says in its contract what it returns or why it refuses.

pub mod errors;
pub mod instructions;
pub mod math;
pub mod state;
