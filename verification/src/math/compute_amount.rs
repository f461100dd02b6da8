use crate::errors::{ErrorCode, Errors};
use crate::math::full_math::{mul_div, Q64};
use crate::math::curve_laws::{lemma_sqrt_price_bounds, lemma_sqrt_price_increasing};
use crate::math::tick_math::{get_sqrt_price_from_tick, sqrt_price_at_tick, tick_in_range};
use vstd::arithmetic::div_mod::{lemma_div_denominator, lemma_div_is_ordered};
use vstd::prelude::*;

verus! {

/// The amount of asset A that `liquidity` stands for between the square-root
/// prices `lo <= hi`: `L * (hi - lo) / (hi * lo)` of the prices themselves, which
/// is `L * 2^64 * (hi - lo) / (hi * lo)` of their 64.64 forms, rounded down.
pub open spec fn token_a_amount_spec(liquidity: u128, lo: u128, hi: u128) -> Result<
    u128,
    ErrorCode,
> {
    if liquidity * Q64 > u128::MAX {
        Err(ErrorCode::MultiplicationOverflow)
    } else if lo == 0 {
        Err(ErrorCode::DivisionByZero)
    } else {
        Ok(((liquidity * Q64 * (hi - lo)) / (hi * lo)) as u128)
    }
}

/// The amount of asset B that `liquidity` stands for between the square-root
/// prices `lo <= hi`: `L * (hi - lo)` of the prices themselves, which is
/// `L * (hi - lo) / 2^64` of their 64.64 forms, rounded down.
pub open spec fn token_b_amount_spec(liquidity: u128, lo: u128, hi: u128) -> Result<
    u128,
    ErrorCode,
> {
    if liquidity * (hi - lo) > u128::MAX {
        Err(ErrorCode::MultiplicationOverflow)
    } else {
        Ok(((liquidity * (hi - lo)) / (Q64 as int)) as u128)
    }
}

/// The amounts of the two assets that `liquidity` stands for in the range of
/// prices from `sqrt_lower` to `sqrt_upper` while the price is `sqrt_current`.
///
/// At or below the range all of it is asset A, at or above the range all of it is
/// asset B, and inside the range it is asset A from the current price up and asset
/// B from the lower price to the current one. A lower price above the upper one
/// is refused with `InvalidTickRange`.
pub open spec fn amounts_for_sqrt_prices_spec(
    liquidity: u128,
    sqrt_lower: u128,
    sqrt_upper: u128,
    sqrt_current: u128,
) -> Result<(u128, u128), ErrorCode> {
    if sqrt_current <= sqrt_lower {
        if sqrt_upper < sqrt_lower {
            Err(ErrorCode::InvalidTickRange)
        } else {
            match token_a_amount_spec(liquidity, sqrt_lower, sqrt_upper) {
                Ok(a) => Ok((a, 0u128)),
                Err(e) => Err(e),
            }
        }
    } else if sqrt_current >= sqrt_upper {
        if sqrt_upper < sqrt_lower {
            Err(ErrorCode::InvalidTickRange)
        } else {
            match token_b_amount_spec(liquidity, sqrt_lower, sqrt_upper) {
                Ok(b) => Ok((0u128, b)),
                Err(e) => Err(e),
            }
        }
    } else {
        match token_a_amount_spec(liquidity, sqrt_current, sqrt_upper) {
            Err(e) => Err(e),
            Ok(a) => match token_b_amount_spec(liquidity, sqrt_lower, sqrt_current) {
                Err(e) => Err(e),
                Ok(b) => Ok((a, b)),
            },
        }
    }
}

/// The amounts of the two assets that `liquidity` stands for in the range from
/// `tick_lower` to `tick_upper` while the current tick is `tick_current`:
/// `compute_amount` answers this on every argument.
///
/// A tick off the curve is refused with `InvalidTick`, a range whose lower tick is
/// not below its upper tick with `InvalidTickRange`. With the current tick at or
/// below the range all of the liquidity is asset A, at or above the range all of
/// it is asset B, and inside the range it is split at the price of the current
/// tick.
pub open spec fn compute_amount_spec(
    liquidity: u128,
    tick_upper: i32,
    tick_lower: i32,
    tick_current: i32,
) -> Result<(u128, u128), Errors> {
    let lo = sqrt_price_at_tick(tick_lower as int) as u128;
    let hi = sqrt_price_at_tick(tick_upper as int) as u128;
    let current = sqrt_price_at_tick(tick_current as int) as u128;
    if !tick_in_range(tick_lower as int) || !tick_in_range(tick_upper as int) || !tick_in_range(
        tick_current as int,
    ) {
        Err(Errors::InvalidTick)
    } else if tick_lower >= tick_upper {
        Err(Errors::InvalidTickRange)
    } else if tick_current <= tick_lower {
        match token_a_amount_spec(liquidity, lo, hi) {
            Ok(a) => Ok((a, 0u128)),
            Err(e) => Err(e.as_errors()),
        }
    } else if tick_current >= tick_upper {
        match token_b_amount_spec(liquidity, lo, hi) {
            Ok(b) => Ok((0u128, b)),
            Err(e) => Err(e.as_errors()),
        }
    } else {
        match token_a_amount_spec(liquidity, current, hi) {
            Err(e) => Err(e.as_errors()),
            Ok(a) => match token_b_amount_spec(liquidity, lo, current) {
                Err(e) => Err(e.as_errors()),
                Ok(b) => Ok((a, b)),
            },
        }
    }
}

/// Dividing by the higher price and then by the lower one divides by their
/// product, and neither quotient is above `n`.
proof fn lemma_token_a_fits(n: int, lo: int, hi: int)
    requires
        0 <= n,
        0 < lo <= hi,
    ensures
        0 <= (n * (hi - lo)) / hi <= n,
        (n * (hi - lo)) / hi / lo == (n * (hi - lo)) / (hi * lo),
        0 <= (n * (hi - lo)) / (hi * lo) <= n,
{
    let x = n * (hi - lo);
    assert(0 <= x <= n * hi) by (nonlinear_arith)
        requires
            0 <= n,
            0 < lo <= hi,
            x == n * (hi - lo),
    ;
    assert(0 <= x / hi <= n) by (nonlinear_arith)
        requires
            0 <= x <= n * hi,
            0 < hi,
    ;
    lemma_div_denominator(x, hi, lo);
    let y = x / hi;
    assert(0 <= y / lo <= y) by (nonlinear_arith)
        requires
            0 <= y,
            0 < lo,
    ;
}

/// The amount of asset A between two prices in rising order.
fn token_a_amount(liquidity: u128, lo: u128, hi: u128) -> (r: Result<u128, ErrorCode>)
    requires
        lo <= hi,
    ensures
        r == token_a_amount_spec(liquidity, lo, hi),
{
    let scaled = match liquidity.checked_mul(Q64) {
        Some(n) => n,
        None => { return Err(ErrorCode::MultiplicationOverflow); },
    };
    if lo == 0 {
        return Err(ErrorCode::DivisionByZero);
    }
    proof {
        lemma_token_a_fits(scaled as int, lo as int, hi as int);
    }
    match mul_div(scaled, hi - lo, hi) {
        Some(q) => Ok(q / lo),
        None => Err(ErrorCode::MultiplicationOverflow),
    }
}

/// The amount of asset B between two prices in rising order.
fn token_b_amount(liquidity: u128, lo: u128, hi: u128) -> (r: Result<u128, ErrorCode>)
    requires
        lo <= hi,
    ensures
        r == token_b_amount_spec(liquidity, lo, hi),
{
    match liquidity.checked_mul(hi - lo) {
        Some(n) => Ok(n / Q64),
        None => Err(ErrorCode::MultiplicationOverflow),
    }
}

/// The amounts of asset A and asset B that `liquidity` stands for in a range of
/// square-root prices, at a given current price.
pub fn amounts_for_sqrt_prices(
    liquidity: u128,
    sqrt_lower: u128,
    sqrt_upper: u128,
    sqrt_current: u128,
) -> (r: Result<(u128, u128), ErrorCode>)
    ensures
        r == amounts_for_sqrt_prices_spec(liquidity, sqrt_lower, sqrt_upper, sqrt_current),
{
    if sqrt_current <= sqrt_lower {
        if sqrt_upper < sqrt_lower {
            return Err(ErrorCode::InvalidTickRange);
        }
        let amount_a = token_a_amount(liquidity, sqrt_lower, sqrt_upper)?;
        return Ok((amount_a, 0));
    }
    if sqrt_current >= sqrt_upper {
        if sqrt_upper < sqrt_lower {
            return Err(ErrorCode::InvalidTickRange);
        }
        let amount_b = token_b_amount(liquidity, sqrt_lower, sqrt_upper)?;
        return Ok((0, amount_b));
    }
    let amount_a = token_a_amount(liquidity, sqrt_current, sqrt_upper)?;
    let amount_b = token_b_amount(liquidity, sqrt_lower, sqrt_current)?;
    Ok((amount_a, amount_b))
}

/// The amounts of asset A and asset B that `liquidity` stands for in the range
/// from `tick_lower` to `tick_upper`, with the price at that of `tick_current`.
pub fn compute_amount(liquidity: u128, tick_upper: i32, tick_lower: i32, tick_current: i32) -> (r:
    Result<(u128, u128), Errors>)
    ensures
        r == compute_amount_spec(liquidity, tick_upper, tick_lower, tick_current),
{
    let sqrt_lower_price = get_sqrt_price_from_tick(tick_lower)?;
    let sqrt_upper_price = get_sqrt_price_from_tick(tick_upper)?;
    let sqrt_current_price = get_sqrt_price_from_tick(tick_current)?;
    if tick_lower >= tick_upper {
        return Err(Errors::InvalidTickRange);
    }
    proof {
        lemma_sqrt_price_increasing(tick_lower as int, tick_upper as int);
        if tick_current < tick_lower {
            lemma_sqrt_price_increasing(tick_current as int, tick_lower as int);
        }
        if tick_lower < tick_current {
            lemma_sqrt_price_increasing(tick_lower as int, tick_current as int);
        }
        if tick_current < tick_upper {
            lemma_sqrt_price_increasing(tick_current as int, tick_upper as int);
        }
        if tick_upper < tick_current {
            lemma_sqrt_price_increasing(tick_upper as int, tick_current as int);
        }
    }
    let amounts = amounts_for_sqrt_prices(
        liquidity,
        sqrt_lower_price,
        sqrt_upper_price,
        sqrt_current_price,
    );
    match amounts {
        Ok(amounts) => Ok(amounts),
        Err(code) => Err(Errors::from(code)),
    }
}

/// More liquidity never stands for less of either asset: where the larger
/// liquidity has its amounts in a range at a current tick, the smaller has too,
/// and neither of them is larger.
pub proof fn lemma_compute_amount_monotonic(
    smaller: u128,
    larger: u128,
    tick_upper: i32,
    tick_lower: i32,
    tick_current: i32,
)
    requires
        smaller <= larger,
        compute_amount_spec(larger, tick_upper, tick_lower, tick_current) is Ok,
    ensures
        compute_amount_spec(smaller, tick_upper, tick_lower, tick_current) is Ok,
        compute_amount_spec(smaller, tick_upper, tick_lower, tick_current)->Ok_0.0
            <= compute_amount_spec(larger, tick_upper, tick_lower, tick_current)->Ok_0.0,
        compute_amount_spec(smaller, tick_upper, tick_lower, tick_current)->Ok_0.1
            <= compute_amount_spec(larger, tick_upper, tick_lower, tick_current)->Ok_0.1,
{
    let lo = sqrt_price_at_tick(tick_lower as int) as u128;
    let hi = sqrt_price_at_tick(tick_upper as int) as u128;
    let current = sqrt_price_at_tick(tick_current as int) as u128;
    lemma_sqrt_price_bounds(tick_lower as int);
    lemma_sqrt_price_bounds(tick_upper as int);
    lemma_sqrt_price_bounds(tick_current as int);
    lemma_sqrt_price_increasing(tick_lower as int, tick_upper as int);
    if tick_current <= tick_lower {
        lemma_token_a_monotonic(smaller, larger, lo, hi);
    } else if tick_current >= tick_upper {
        lemma_token_b_monotonic(smaller, larger, lo, hi);
    } else {
        lemma_sqrt_price_increasing(tick_lower as int, tick_current as int);
        lemma_sqrt_price_increasing(tick_current as int, tick_upper as int);
        lemma_token_a_monotonic(smaller, larger, current, hi);
        lemma_token_b_monotonic(smaller, larger, lo, current);
    }
}

/// Scaling by a number that is not negative keeps an order.
proof fn lemma_scaled_order(x: int, y: int, c: int)
    by (nonlinear_arith)
    requires
        0 <= x <= y,
        0 <= c,
    ensures
        0 <= x * c <= y * c,
{
}

/// More liquidity never stands for less of asset A.
proof fn lemma_token_a_monotonic(smaller: u128, larger: u128, lo: u128, hi: u128)
    requires
        smaller <= larger,
        0 < lo <= hi,
        token_a_amount_spec(larger, lo, hi) is Ok,
    ensures
        token_a_amount_spec(smaller, lo, hi) is Ok,
        token_a_amount_spec(smaller, lo, hi)->Ok_0 <= token_a_amount_spec(larger, lo, hi)->Ok_0,
{
    let q = Q64 as int;
    lemma_scaled_order(smaller as int, larger as int, q);
    lemma_scaled_order(smaller * q, larger * q, hi - lo);
    assert(0 < hi * lo) by (nonlinear_arith)
        requires
            0 < lo <= hi,
    ;
    lemma_div_is_ordered(smaller * q * (hi - lo), larger * q * (hi - lo), hi * lo);
    lemma_token_a_fits(smaller * q, lo as int, hi as int);
    lemma_token_a_fits(larger * q, lo as int, hi as int);
}

/// More liquidity never stands for less of asset B.
proof fn lemma_token_b_monotonic(smaller: u128, larger: u128, lo: u128, hi: u128)
    requires
        smaller <= larger,
        lo <= hi,
        token_b_amount_spec(larger, lo, hi) is Ok,
    ensures
        token_b_amount_spec(smaller, lo, hi) is Ok,
        token_b_amount_spec(smaller, lo, hi)->Ok_0 <= token_b_amount_spec(larger, lo, hi)->Ok_0,
{
    lemma_scaled_order(smaller as int, larger as int, hi - lo);
    lemma_div_is_ordered(smaller * (hi - lo), larger * (hi - lo), Q64 as int);
}

} // verus!
