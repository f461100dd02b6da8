pub mod pool;
pub mod position;
pub mod tick;
