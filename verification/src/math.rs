pub mod compute_amount;
pub mod compute_sqrt_price;
pub mod compute_swap_step;
pub mod curve_laws;
pub mod full_math;
pub mod step_laws;
pub mod tick_math;
