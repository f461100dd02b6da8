use crate::errors::Errors;
use crate::math::full_math::Q64;
use vstd::prelude::*;

verus! {

/// The price that an exact input leaves behind: `get_new_sqrt_price_from_input`
/// answers this on every argument.
///
/// Asset A coming in lowers the price to `L * P / (L + amount * P / 2^64)`;
/// asset B coming in raises it to `P + amount * 2^64 / L`. Every quotient is
/// rounded down, and every intermediate value has to fit in 128 bits.
pub open spec fn new_sqrt_price_from_input_spec(
    sqrt_price_current: u128,
    liquidity: u128,
    amount_in: u128,
    a_to_b: bool,
) -> Result<u128, Errors> {
    if a_to_b {
        if liquidity * sqrt_price_current > u128::MAX {
            Err(Errors::MathError)
        } else if amount_in * sqrt_price_current > u128::MAX {
            Err(Errors::MathError)
        } else if liquidity + amount_in * sqrt_price_current / (Q64 as int) > u128::MAX {
            Err(Errors::MathError)
        } else if liquidity + amount_in * sqrt_price_current / (Q64 as int) == 0 {
            Err(Errors::DivisionByZero)
        } else {
            Ok(
                ((liquidity * sqrt_price_current) / (liquidity + amount_in * sqrt_price_current / (
                Q64 as int))) as u128,
            )
        }
    } else {
        if amount_in * Q64 > u128::MAX {
            Err(Errors::MathError)
        } else if liquidity == 0 {
            Err(Errors::DivisionByZero)
        } else if sqrt_price_current + amount_in * Q64 / (liquidity as int) > u128::MAX {
            Err(Errors::MathError)
        } else {
            Ok((sqrt_price_current + amount_in * Q64 / (liquidity as int)) as u128)
        }
    }
}

/// The price that an exact output leaves behind: `get_new_sqrt_price_from_output`
/// answers this on every argument.
///
/// Asset B going out (asset A coming in) lowers the price to
/// `P - amount * 2^64 / L`; asset A going out raises it to
/// `L * P / (L - amount * P / 2^64)`, which asks for more liquidity than the
/// amount takes away.
pub open spec fn new_sqrt_price_from_output_spec(
    sqrt_price_current: u128,
    liquidity: u128,
    amount_out: u128,
    a_to_b: bool,
) -> Result<u128, Errors> {
    if a_to_b {
        if amount_out * Q64 > u128::MAX {
            Err(Errors::MathError)
        } else if liquidity == 0 {
            Err(Errors::DivisionByZero)
        } else if sqrt_price_current < amount_out * Q64 / (liquidity as int) {
            Err(Errors::MathError)
        } else {
            Ok((sqrt_price_current - amount_out * Q64 / (liquidity as int)) as u128)
        }
    } else {
        if liquidity * sqrt_price_current > u128::MAX {
            Err(Errors::MathError)
        } else if amount_out * sqrt_price_current > u128::MAX {
            Err(Errors::MathError)
        } else if liquidity <= amount_out * sqrt_price_current / (Q64 as int) {
            Err(Errors::InsufficientLiquidity)
        } else {
            Ok(
                ((liquidity * sqrt_price_current) / (liquidity - amount_out * sqrt_price_current / (
                Q64 as int))) as u128,
            )
        }
    }
}

/// A quotient by a positive number is not above its dividend.
proof fn lemma_quotient_at_most_numerator(x: int, d: int)
    by (nonlinear_arith)
    requires
        0 <= x,
        0 < d,
    ensures
        0 <= x / d <= x,
{
}

/// The square-root price after `amount_in` of the incoming asset has been added to
/// `liquidity` at `sqrt_price_current`; `a_to_b` says that the asset is A.
pub fn get_new_sqrt_price_from_input(
    sqrt_price_current: u128,
    liquidity: u128,
    amount_in: u128,
    a_to_b: bool,
) -> (r: Result<u128, Errors>)
    ensures
        r == new_sqrt_price_from_input_spec(sqrt_price_current, liquidity, amount_in, a_to_b),
{
    if a_to_b {
        let numerator = match liquidity.checked_mul(sqrt_price_current) {
            Some(n) => n,
            None => { return Err(Errors::MathError); },
        };
        let scaled = match amount_in.checked_mul(sqrt_price_current) {
            Some(n) => n,
            None => { return Err(Errors::MathError); },
        };
        let denominator = match liquidity.checked_add(scaled / Q64) {
            Some(n) => n,
            None => { return Err(Errors::MathError); },
        };
        if denominator == 0 {
            return Err(Errors::DivisionByZero);
        }
        proof {
            lemma_quotient_at_most_numerator(numerator as int, denominator as int);
        }
        Ok(numerator / denominator)
    } else {
        let scaled = match amount_in.checked_mul(Q64) {
            Some(n) => n,
            None => { return Err(Errors::MathError); },
        };
        if liquidity == 0 {
            return Err(Errors::DivisionByZero);
        }
        match sqrt_price_current.checked_add(scaled / liquidity) {
            Some(p) => Ok(p),
            None => Err(Errors::MathError),
        }
    }
}

/// The square-root price after `amount_out` of the outgoing asset has been taken
/// from `liquidity` at `sqrt_price_current`; `a_to_b` says that the asset is B.
pub fn get_new_sqrt_price_from_output(
    sqrt_price_current: u128,
    liquidity: u128,
    amount_out: u128,
    a_to_b: bool,
) -> (r: Result<u128, Errors>)
    ensures
        r == new_sqrt_price_from_output_spec(sqrt_price_current, liquidity, amount_out, a_to_b),
{
    if a_to_b {
        let scaled = match amount_out.checked_mul(Q64) {
            Some(n) => n,
            None => { return Err(Errors::MathError); },
        };
        if liquidity == 0 {
            return Err(Errors::DivisionByZero);
        }
        match sqrt_price_current.checked_sub(scaled / liquidity) {
            Some(p) => Ok(p),
            None => Err(Errors::MathError),
        }
    } else {
        let numerator = match liquidity.checked_mul(sqrt_price_current) {
            Some(n) => n,
            None => { return Err(Errors::MathError); },
        };
        let scaled = match amount_out.checked_mul(sqrt_price_current) {
            Some(n) => n,
            None => { return Err(Errors::MathError); },
        };
        let taken = scaled / Q64;
        if liquidity <= taken {
            return Err(Errors::InsufficientLiquidity);
        }
        let denominator = liquidity - taken;
        proof {
            lemma_quotient_at_most_numerator(numerator as int, denominator as int);
        }
        Ok(numerator / denominator)
    }
}

} // verus!
