pub mod initialize_pool;
pub mod provide_liquidity;
pub mod remove_liquidity;
pub mod swap;
