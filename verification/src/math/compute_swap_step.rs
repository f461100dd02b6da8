use crate::errors::Errors;
use crate::math::compute_sqrt_price::{
    get_new_sqrt_price_from_input, get_new_sqrt_price_from_output, new_sqrt_price_from_input_spec,
    new_sqrt_price_from_output_spec,
};
use crate::math::full_math::{mul_div, Q64};
use crate::math::step_laws::{
    lemma_swap_step_conservation, lemma_swap_step_output_within_reserve,
    lemma_swap_step_price_between, net_input_spec, output_reserve_spec,
};
use vstd::arithmetic::div_mod::lemma_div_denominator;
use vstd::prelude::*;

verus! {

/// The fee rate is stated in parts of this number: one million.
pub const FEE_DENOMINATOR: u128 = 1_000_000;

/// The smaller of two prices.
pub open spec fn lower_of(a: u128, b: u128) -> u128 {
    if a <= b {
        a
    } else {
        b
    }
}

/// The larger of two prices.
pub open spec fn upper_of(a: u128, b: u128) -> u128 {
    if a <= b {
        b
    } else {
        a
    }
}

/// The amount of asset A that `liquidity` holds between two square-root prices,
/// `L * 2^64 * (hi - lo) / (lo * hi)` rounded down, whichever of the two prices
/// is given first. It is refused where the lower price is zero, and where
/// `L * 2^64` does not fit in 128 bits.
pub open spec fn amount_a_delta_spec(sqrt_ratio_a: u128, sqrt_ratio_b: u128, liquidity: u128)
    -> Result<u128, Errors> {
    let lo = lower_of(sqrt_ratio_a, sqrt_ratio_b);
    let hi = upper_of(sqrt_ratio_a, sqrt_ratio_b);
    if lo == 0 {
        Err(Errors::DivisionByZero)
    } else if liquidity * Q64 > u128::MAX {
        Err(Errors::MathError)
    } else {
        Ok(((liquidity * Q64 * (hi - lo)) / (lo * hi)) as u128)
    }
}

/// The amount of asset B that `liquidity` holds between two square-root prices,
/// `L * (hi - lo) / 2^64` rounded down, whichever of the two prices is given
/// first. It is refused where `L * (hi - lo)` does not fit in 128 bits.
pub open spec fn amount_b_delta_spec(sqrt_ratio_a: u128, sqrt_ratio_b: u128, liquidity: u128)
    -> Result<u128, Errors> {
    let lo = lower_of(sqrt_ratio_a, sqrt_ratio_b);
    let hi = upper_of(sqrt_ratio_a, sqrt_ratio_b);
    if liquidity * (hi - lo) > u128::MAX {
        Err(Errors::MathError)
    } else {
        Ok(((liquidity * (hi - lo)) / (Q64 as int)) as u128)
    }
}

/// Dividing by the higher price and then by the lower one divides by their
/// product, and neither quotient is above `n`.
proof fn lemma_amount_a_fits(n: int, lo: int, hi: int)
    requires
        0 <= n,
        0 < lo <= hi,
    ensures
        0 <= (n * (hi - lo)) / hi <= n,
        (n * (hi - lo)) / hi / lo == (n * (hi - lo)) / (lo * hi),
        0 <= (n * (hi - lo)) / (lo * hi) <= n,
{
    let x = n * (hi - lo);
    assert(0 <= x <= n * hi) by (nonlinear_arith)
        requires
            0 <= n,
            0 < lo <= hi,
            x == n * (hi - lo),
    ;
    assert(0 <= x / hi <= n) by (nonlinear_arith)
        requires
            0 <= x <= n * hi,
            0 < hi,
    ;
    lemma_div_denominator(x, hi, lo);
    assert(hi * lo == lo * hi) by (nonlinear_arith);
    let y = x / hi;
    assert(0 <= y / lo <= y) by (nonlinear_arith)
        requires
            0 <= y,
            0 < lo,
    ;
}

/// Where the amount of asset A between two prices is defined, it is the quotient
/// itself: the quotient is at most `L * 2^64` and so fits in 128 bits.
pub proof fn lemma_amount_a_delta_fits(sqrt_ratio_a: u128, sqrt_ratio_b: u128, liquidity: u128)
    requires
        amount_a_delta_spec(sqrt_ratio_a, sqrt_ratio_b, liquidity) is Ok,
    ensures
        amount_a_delta_spec(sqrt_ratio_a, sqrt_ratio_b, liquidity)->Ok_0 == (liquidity * Q64 * (
        upper_of(sqrt_ratio_a, sqrt_ratio_b) - lower_of(sqrt_ratio_a, sqrt_ratio_b))) / (lower_of(
            sqrt_ratio_a,
            sqrt_ratio_b,
        ) * upper_of(sqrt_ratio_a, sqrt_ratio_b)),
{
    lemma_amount_a_fits(
        liquidity * Q64,
        lower_of(sqrt_ratio_a, sqrt_ratio_b) as int,
        upper_of(sqrt_ratio_a, sqrt_ratio_b) as int,
    );
}

/// The amount of asset A between two square-root prices. The quotient is rounded
/// down whatever `round_up` says.
pub fn get_amount_a_delta(sqrt_ratio_a: u128, sqrt_ratio_b: u128, liquidity: u128, round_up: bool)
    -> (r: Result<u128, Errors>)
    ensures
        r == amount_a_delta_spec(sqrt_ratio_a, sqrt_ratio_b, liquidity),
{
    let (lo, hi) = if sqrt_ratio_a > sqrt_ratio_b {
        (sqrt_ratio_b, sqrt_ratio_a)
    } else {
        (sqrt_ratio_a, sqrt_ratio_b)
    };
    if lo == 0 {
        return Err(Errors::DivisionByZero);
    }
    let scaled = match liquidity.checked_mul(Q64) {
        Some(n) => n,
        None => { return Err(Errors::MathError); },
    };
    proof {
        lemma_amount_a_fits(scaled as int, lo as int, hi as int);
    }
    match mul_div(scaled, hi - lo, hi) {
        Some(q) => Ok(q / lo),
        None => Err(Errors::MathError),
    }
}

/// The amount of asset B between two square-root prices. The quotient is rounded
/// down whatever `round_up` says.
pub fn get_amount_b_delta(sqrt_ratio_a: u128, sqrt_ratio_b: u128, liquidity: u128, round_up: bool)
    -> (r: Result<u128, Errors>)
    ensures
        r == amount_b_delta_spec(sqrt_ratio_a, sqrt_ratio_b, liquidity),
{
    let (lo, hi) = if sqrt_ratio_a > sqrt_ratio_b {
        (sqrt_ratio_b, sqrt_ratio_a)
    } else {
        (sqrt_ratio_a, sqrt_ratio_b)
    };
    match liquidity.checked_mul(hi - lo) {
        Some(n) => Ok(n / Q64),
        None => Err(Errors::MathError),
    }
}

/// `x * m / d` rounded down, refused with `MathError` where the product leaves
/// the 128-bit range or `d` is zero.
pub open spec fn scale_spec(x: u128, m: u128, d: u128) -> Result<u128, Errors> {
    if x * m > u128::MAX || d == 0 {
        Err(Errors::MathError)
    } else {
        Ok(((x * m) / (d as int)) as u128)
    }
}

/// `x * m / d` with the product checked.
fn scale(x: u128, m: u128, d: u128) -> (r: Result<u128, Errors>)
    ensures
        r == scale_spec(x, m, d),
{
    match x.checked_mul(m) {
        Some(n) => {
            if d == 0 {
                Err(Errors::MathError)
            } else {
                Ok(n / d)
            }
        },
        None => Err(Errors::MathError),
    }
}

/// The amount of the incoming asset between two prices: asset A where the price
/// falls, asset B where it rises.
pub open spec fn input_delta_spec(from: u128, to: u128, liquidity: u128, zero_for_one: bool)
    -> Result<u128, Errors> {
    if zero_for_one {
        amount_a_delta_spec(to, from, liquidity)
    } else {
        amount_b_delta_spec(from, to, liquidity)
    }
}

/// The amount of the outgoing asset between two prices: asset B where the price
/// falls, asset A where it rises.
pub open spec fn output_delta_spec(from: u128, to: u128, liquidity: u128, zero_for_one: bool)
    -> Result<u128, Errors> {
    if zero_for_one {
        amount_b_delta_spec(to, from, liquidity)
    } else {
        amount_a_delta_spec(from, to, liquidity)
    }
}

/// The bounded side of a step, as the amount that moves and the price reached.
///
/// `budget` is what may still move on the bounded side: the input net of the fee
/// in exact-input mode, the output in exact-output mode. Where it covers the
/// whole way to the target, the amount is what that way takes and the price is
/// the target; otherwise the whole budget moves and the price is solved from it.
/// A failure of that solving is reported as `MathError`.
pub open spec fn bounded_leg_spec(
    sqrt_price_current: u128,
    sqrt_price_target: u128,
    liquidity: u128,
    budget: u128,
    exact_in: bool,
) -> Result<(u128, u128), Errors> {
    let zero_for_one = sqrt_price_target < sqrt_price_current;
    let whole = if exact_in {
        input_delta_spec(sqrt_price_current, sqrt_price_target, liquidity, zero_for_one)
    } else {
        output_delta_spec(sqrt_price_current, sqrt_price_target, liquidity, zero_for_one)
    };
    match whole {
        Err(e) => Err(e),
        Ok(max) => if budget >= max {
            Ok((max, sqrt_price_target))
        } else {
            let solved = if exact_in {
                new_sqrt_price_from_input_spec(sqrt_price_current, liquidity, budget, zero_for_one)
            } else {
                new_sqrt_price_from_output_spec(sqrt_price_current, liquidity, budget, zero_for_one)
            };
            match solved {
                Ok(p) => Ok((budget, p)),
                Err(_) => Err(Errors::MathError),
            }
        },
    }
}

/// One step of a swap, as `(amount_in, amount_out, sqrt_price_next, fee_amount)`:
/// `compute_swap_step` answers this on every argument.
///
/// With the two prices equal nothing moves. Otherwise the fee rate has to be below
/// `FEE_DENOMINATOR`. In exact-input mode the budget of the bounded side is
/// `amount_remaining * (FEE_DENOMINATOR - fee_rate) / FEE_DENOMINATOR`, the output
/// is what lies between the current price and the price reached, and the input net
/// of the fee is grossed up by `FEE_DENOMINATOR / (FEE_DENOMINATOR - fee_rate)`.
/// In exact-output mode the budget is `amount_remaining` itself, and the input is
/// what lies between the two prices, grossed up in the same way. The fee is
/// `amount_in * fee_rate / FEE_DENOMINATOR`.
pub open spec fn swap_step_spec(
    sqrt_price_current: u128,
    sqrt_price_target: u128,
    liquidity: u128,
    amount_remaining: u128,
    fee_rate: u128,
    exact_in: bool,
) -> Result<(u128, u128, u128, u128), Errors> {
    let zero_for_one = sqrt_price_target < sqrt_price_current;
    let keep = (FEE_DENOMINATOR - fee_rate) as u128;
    if sqrt_price_current == sqrt_price_target {
        Ok((0, 0, sqrt_price_current, 0))
    } else if fee_rate >= FEE_DENOMINATOR {
        Err(Errors::InvalidFeeRate)
    } else {
        let budget = if exact_in {
            scale_spec(amount_remaining, keep, FEE_DENOMINATOR)
        } else {
            Ok(amount_remaining)
        };
        match budget {
            Err(e) => Err(e),
            Ok(b) => match bounded_leg_spec(
                sqrt_price_current,
                sqrt_price_target,
                liquidity,
                b,
                exact_in,
            ) {
                Err(e) => Err(e),
                Ok((moved, next)) => {
                    let other = if exact_in {
                        output_delta_spec(sqrt_price_current, next, liquidity, zero_for_one)
                    } else {
                        input_delta_spec(sqrt_price_current, next, liquidity, zero_for_one)
                    };
                    match other {
                        Err(e) => Err(e),
                        Ok(o) => {
                            let net = if exact_in {
                                moved
                            } else {
                                o
                            };
                            let out = if exact_in {
                                o
                            } else {
                                moved
                            };
                            match scale_spec(net, FEE_DENOMINATOR, keep) {
                                Err(e) => Err(e),
                                Ok(gross) => match scale_spec(gross, fee_rate, FEE_DENOMINATOR) {
                                    Err(e) => Err(e),
                                    Ok(fee) => Ok((gross, out, next, fee)),
                                },
                            }
                        },
                    }
                },
            },
        }
    }
}

/// The amount of the incoming asset between two prices.
fn input_delta(from: u128, to: u128, liquidity: u128, zero_for_one: bool) -> (r: Result<
    u128,
    Errors,
>)
    ensures
        r == input_delta_spec(from, to, liquidity, zero_for_one),
{
    if zero_for_one {
        get_amount_a_delta(to, from, liquidity, true)
    } else {
        get_amount_b_delta(from, to, liquidity, true)
    }
}

/// The amount of the outgoing asset between two prices.
fn output_delta(from: u128, to: u128, liquidity: u128, zero_for_one: bool) -> (r: Result<
    u128,
    Errors,
>)
    ensures
        r == output_delta_spec(from, to, liquidity, zero_for_one),
{
    if zero_for_one {
        get_amount_b_delta(to, from, liquidity, false)
    } else {
        get_amount_a_delta(from, to, liquidity, false)
    }
}

/// The amount that moves on the bounded side of a step, and the price reached.
fn bounded_leg(
    sqrt_price_current: u128,
    sqrt_price_target: u128,
    liquidity: u128,
    budget: u128,
    exact_in: bool,
) -> (r: Result<(u128, u128), Errors>)
    ensures
        r == bounded_leg_spec(sqrt_price_current, sqrt_price_target, liquidity, budget, exact_in),
{
    let zero_for_one = sqrt_price_target < sqrt_price_current;
    let max = if exact_in {
        input_delta(sqrt_price_current, sqrt_price_target, liquidity, zero_for_one)?
    } else {
        output_delta(sqrt_price_current, sqrt_price_target, liquidity, zero_for_one)?
    };
    if budget >= max {
        return Ok((max, sqrt_price_target));
    }
    let solved = if exact_in {
        get_new_sqrt_price_from_input(sqrt_price_current, liquidity, budget, zero_for_one)
    } else {
        get_new_sqrt_price_from_output(sqrt_price_current, liquidity, budget, zero_for_one)
    };
    match solved {
        Ok(p) => Ok((budget, p)),
        Err(_) => Err(Errors::MathError),
    }
}

/// One bounded step of a swap from `sqrt_price_current` toward
/// `sqrt_price_target`: the gross input taken, the output given, the price reached
/// and the fee that the input holds. Asset A comes in where the target lies below
/// the current price, asset B where it lies above.
pub fn compute_swap_step(
    sqrt_price_current: u128,
    sqrt_price_target: u128,
    liquidity: u128,
    amount_remaining: u128,
    fee_rate: u128,
    exact_in: bool,
) -> (r: Result<(u128, u128, u128, u128), Errors>)
    ensures
        r == swap_step_spec(
            sqrt_price_current,
            sqrt_price_target,
            liquidity,
            amount_remaining,
            fee_rate,
            exact_in,
        ),
        r matches Ok((amount_in, amount_out, sqrt_price_next, fee_amount)) ==> {
            &&& fee_amount <= amount_in
            &&& amount_in - fee_amount == net_input_spec(
                sqrt_price_current,
                sqrt_price_target,
                liquidity,
                amount_remaining,
                fee_rate,
                exact_in,
            )
            &&& exact_in ==> amount_in <= amount_remaining
            &&& !exact_in ==> amount_out <= amount_remaining
            &&& lower_of(sqrt_price_current, sqrt_price_target) <= sqrt_price_next <= upper_of(
                sqrt_price_current,
                sqrt_price_target,
            )
            &&& amount_out <= output_reserve_spec(sqrt_price_current, sqrt_price_target, liquidity)
        },
{
    proof {
        if swap_step_spec(
            sqrt_price_current,
            sqrt_price_target,
            liquidity,
            amount_remaining,
            fee_rate,
            exact_in,
        ) is Ok {
            lemma_swap_step_conservation(
                sqrt_price_current,
                sqrt_price_target,
                liquidity,
                amount_remaining,
                fee_rate,
                exact_in,
            );
            lemma_swap_step_price_between(
                sqrt_price_current,
                sqrt_price_target,
                liquidity,
                amount_remaining,
                fee_rate,
                exact_in,
            );
            lemma_swap_step_output_within_reserve(
                sqrt_price_current,
                sqrt_price_target,
                liquidity,
                amount_remaining,
                fee_rate,
                exact_in,
            );
        }
    }
    if sqrt_price_current == sqrt_price_target {
        return Ok((0, 0, sqrt_price_current, 0));
    }
    if fee_rate >= FEE_DENOMINATOR {
        return Err(Errors::InvalidFeeRate);
    }
    let zero_for_one = sqrt_price_target < sqrt_price_current;
    let keep = FEE_DENOMINATOR - fee_rate;
    let budget = if exact_in {
        scale(amount_remaining, keep, FEE_DENOMINATOR)?
    } else {
        amount_remaining
    };
    let (moved, sqrt_price_next) = bounded_leg(
        sqrt_price_current,
        sqrt_price_target,
        liquidity,
        budget,
        exact_in,
    )?;
    let (net, amount_out) = if exact_in {
        let out = output_delta(sqrt_price_current, sqrt_price_next, liquidity, zero_for_one)?;
        (moved, out)
    } else {
        let needed = input_delta(sqrt_price_current, sqrt_price_next, liquidity, zero_for_one)?;
        (needed, moved)
    };
    let amount_in = scale(net, FEE_DENOMINATOR, keep)?;
    let fee_amount = scale(amount_in, fee_rate, FEE_DENOMINATOR)?;
    Ok((amount_in, amount_out, sqrt_price_next, fee_amount))
}

} // verus!
