// The laws of one step of a swap: what the amounts and the price of a step have to
// do with each other and with the liquidity, whatever the arguments.

use crate::errors::Errors;
use crate::math::compute_swap_step::{
    amount_a_delta_spec, amount_b_delta_spec, bounded_leg_spec, input_delta_spec,
    lemma_amount_a_delta_fits, lower_of, output_delta_spec, swap_step_spec, upper_of,
    FEE_DENOMINATOR,
};
use crate::math::full_math::Q64;
use vstd::arithmetic::div_mod::{
    lemma_div_is_ordered, lemma_div_multiples_vanish, lemma_div_pos_is_pos,
    lemma_fundamental_div_mod, lemma_mod_pos_bound,
};
use vstd::prelude::*;

verus! {

/// A quotient rounded down, times the divisor, is the dividend less a remainder
/// below the divisor.
proof fn lemma_floor(x: int, d: int)
    requires
        0 <= x,
        0 < d,
    ensures
        0 <= x / d,
        (x / d) * d <= x < (x / d) * d + d,
{
    lemma_fundamental_div_mod(x, d);
    lemma_mod_pos_bound(x, d);
    lemma_div_pos_is_pos(x, d);
    assert(d * (x / d) == (x / d) * d) by (nonlinear_arith);
}

/// A dividend of at least `m` divisors has a quotient of at least `m`.
proof fn lemma_floor_at_least(x: int, d: int, m: int)
    requires
        0 < d,
        0 <= m,
        m * d <= x,
    ensures
        m <= x / d,
{
    lemma_div_is_ordered(m * d, x, d);
    lemma_div_multiples_vanish(m, d);
    assert(d * m == m * d) by (nonlinear_arith);
}

/// A dividend of at most `m` divisors has a quotient of at most `m`.
proof fn lemma_floor_at_most(x: int, d: int, m: int)
    requires
        0 < d,
        0 <= x <= m * d,
    ensures
        x / d <= m,
{
    lemma_div_is_ordered(x, m * d, d);
    lemma_div_multiples_vanish(m, d);
    assert(d * m == m * d) by (nonlinear_arith);
}

/// A dividend below `m` divisors has a quotient below `m`.
proof fn lemma_floor_below(x: int, d: int, m: int)
    requires
        0 < d,
        0 <= x < m * d,
    ensures
        x / d < m,
{
    lemma_floor(x, d);
    assert(x / d < m) by (nonlinear_arith)
        requires
            (x / d) * d <= x,
            x < m * d,
            0 < d,
    ;
}

/// Grossing a net input up by the fee rate and taking the fee from the gross
/// input gives the net input back, to the unit.
proof fn lemma_gross_less_fee(net: int, rate: int, gross: int, fee: int)
    requires
        0 <= net,
        0 <= rate < 1_000_000,
        gross == (net * 1_000_000) / (1_000_000 - rate),
        fee == (gross * rate) / 1_000_000,
    ensures
        0 <= fee <= gross,
        gross - fee == net,
{
    let keep = 1_000_000 - rate;
    lemma_floor(net * 1_000_000, keep);
    assert(0 <= gross * rate) by (nonlinear_arith)
        requires
            0 <= gross,
            0 <= rate,
    ;
    lemma_floor(gross * rate, 1_000_000);
    assert(gross * keep + gross * rate == gross * 1_000_000) by (nonlinear_arith)
        requires
            keep == 1_000_000 - rate,
    ;
}

/// An input within the budget net of the fee is, grossed up, within the budget.
proof fn lemma_gross_within_budget(remaining: int, rate: int, net: int)
    requires
        0 <= remaining,
        0 <= rate < 1_000_000,
        0 <= net <= (remaining * (1_000_000 - rate)) / 1_000_000,
    ensures
        (net * 1_000_000) / (1_000_000 - rate) <= remaining,
{
    let keep = 1_000_000 - rate;
    assert(0 <= remaining * keep) by (nonlinear_arith)
        requires
            0 <= remaining,
            0 < keep,
    ;
    lemma_floor(remaining * keep, 1_000_000);
    lemma_floor_at_most(net * 1_000_000, keep, remaining);
}

/// What may move on the bounded side of a step: in exact-input mode the remaining
/// amount net of the fee, in exact-output mode the remaining amount itself.
pub open spec fn step_budget_spec(amount_remaining: u128, fee_rate: u128, exact_in: bool) -> u128 {
    if exact_in {
        ((amount_remaining * (FEE_DENOMINATOR - fee_rate)) / (FEE_DENOMINATOR as int)) as u128
    } else {
        amount_remaining
    }
}

/// The whole amount that the bounded side takes from the current price to the
/// target: of the incoming asset in exact-input mode, of the outgoing asset in
/// exact-output mode.
pub open spec fn step_whole_way_spec(
    sqrt_price_current: u128,
    sqrt_price_target: u128,
    liquidity: u128,
    exact_in: bool,
) -> Result<u128, Errors> {
    let zero_for_one = sqrt_price_target < sqrt_price_current;
    if exact_in {
        input_delta_spec(sqrt_price_current, sqrt_price_target, liquidity, zero_for_one)
    } else {
        output_delta_spec(sqrt_price_current, sqrt_price_target, liquidity, zero_for_one)
    }
}

/// Whether the budget of a step covers the whole way to the target.
pub open spec fn step_covers_target_spec(
    sqrt_price_current: u128,
    sqrt_price_target: u128,
    liquidity: u128,
    amount_remaining: u128,
    fee_rate: u128,
    exact_in: bool,
) -> bool {
    step_whole_way_spec(sqrt_price_current, sqrt_price_target, liquidity, exact_in) matches Ok(
        whole,
    ) && step_budget_spec(amount_remaining, fee_rate, exact_in) >= whole
}

/// The input that the movement of the price takes in a step, before the fee.
///
/// In exact-input mode it is the whole way to the target where the budget covers
/// it, and the budget otherwise. In exact-output mode it is what lies between the
/// current price and the price reached. Between equal prices it is nothing.
pub open spec fn net_input_spec(
    sqrt_price_current: u128,
    sqrt_price_target: u128,
    liquidity: u128,
    amount_remaining: u128,
    fee_rate: u128,
    exact_in: bool,
) -> u128 {
    let zero_for_one = sqrt_price_target < sqrt_price_current;
    let budget = step_budget_spec(amount_remaining, fee_rate, exact_in);
    if sqrt_price_current == sqrt_price_target {
        0
    } else if exact_in {
        if step_covers_target_spec(
            sqrt_price_current,
            sqrt_price_target,
            liquidity,
            amount_remaining,
            fee_rate,
            exact_in,
        ) {
            step_whole_way_spec(sqrt_price_current, sqrt_price_target, liquidity, exact_in)->Ok_0
        } else {
            budget
        }
    } else {
        input_delta_spec(
            sqrt_price_current,
            swap_step_spec(
                sqrt_price_current,
                sqrt_price_target,
                liquidity,
                amount_remaining,
                fee_rate,
                exact_in,
            )->Ok_0.2,
            liquidity,
            zero_for_one,
        )->Ok_0
    }
}

/// Conservation in one step: the input less the fee is exactly the input that the
/// movement of the price takes. The fee is a part of the input, an exact input
/// stays within the remaining amount, and so does an exact output.
///
/// Where the step reaches its target by covering the whole way, and in
/// exact-output mode, that net input is the amount of the incoming asset between
/// the price before and the price after.
pub proof fn lemma_swap_step_conservation(
    sqrt_price_current: u128,
    sqrt_price_target: u128,
    liquidity: u128,
    amount_remaining: u128,
    fee_rate: u128,
    exact_in: bool,
)
    requires
        swap_step_spec(
            sqrt_price_current,
            sqrt_price_target,
            liquidity,
            amount_remaining,
            fee_rate,
            exact_in,
        ) is Ok,
    ensures
        ({
            let (amount_in, amount_out, sqrt_price_next, fee_amount) = swap_step_spec(
                sqrt_price_current,
                sqrt_price_target,
                liquidity,
                amount_remaining,
                fee_rate,
                exact_in,
            )->Ok_0;
            let net = net_input_spec(
                sqrt_price_current,
                sqrt_price_target,
                liquidity,
                amount_remaining,
                fee_rate,
                exact_in,
            );
            let covers = step_covers_target_spec(
                sqrt_price_current,
                sqrt_price_target,
                liquidity,
                amount_remaining,
                fee_rate,
                exact_in,
            );
            &&& fee_amount <= amount_in
            &&& amount_in - fee_amount == net
            &&& exact_in ==> amount_in <= amount_remaining
            &&& !exact_in ==> amount_out <= amount_remaining
            &&& sqrt_price_current != sqrt_price_target && covers ==> sqrt_price_next
                == sqrt_price_target
            &&& sqrt_price_current != sqrt_price_target && (covers || !exact_in) ==> input_delta_spec(
                sqrt_price_current,
                sqrt_price_next,
                liquidity,
                sqrt_price_target < sqrt_price_current,
            ) == Ok::<u128, Errors>(net)
        }),
{
    if sqrt_price_current != sqrt_price_target {
        let (amount_in, amount_out, sqrt_price_next, fee_amount) = swap_step_spec(
            sqrt_price_current,
            sqrt_price_target,
            liquidity,
            amount_remaining,
            fee_rate,
            exact_in,
        )->Ok_0;
        let net = net_input_spec(
            sqrt_price_current,
            sqrt_price_target,
            liquidity,
            amount_remaining,
            fee_rate,
            exact_in,
        );
        lemma_gross_less_fee(net as int, fee_rate as int, amount_in as int, fee_amount as int);
        if exact_in {
            lemma_gross_within_budget(amount_remaining as int, fee_rate as int, net as int);
        }
    }
}

/// An amount of asset B below what the whole gap between two prices takes moves
/// the price by less than the gap.
proof fn lemma_b_side_short(gap: int, liquidity: int, amount: int)
    requires
        0 <= gap,
        0 <= liquidity,
        0 <= amount < (liquidity * gap) / 0x1_0000_0000_0000_0000,
    ensures
        liquidity > 0,
        (amount * 0x1_0000_0000_0000_0000) / liquidity < gap,
{
    let q = 0x1_0000_0000_0000_0000int;
    assert(0 <= liquidity * gap) by (nonlinear_arith)
        requires
            0 <= gap,
            0 <= liquidity,
    ;
    lemma_floor(liquidity * gap, q);
    if liquidity == 0 {
        assert(liquidity * gap == 0) by (nonlinear_arith)
            requires
                liquidity == 0,
        ;
    }
    assert(gap * liquidity == liquidity * gap) by (nonlinear_arith);
    lemma_floor_below(amount * q, liquidity, gap);
}

/// The step that the two proofs for asset A share: from the amount being below
/// the whole way to the part of the liquidity that it stands for.
proof fn lemma_scaled_by_price(s: int, q: int, amount: int, price: int, other: int, bound: int)
    by (nonlinear_arith)
    requires
        0 <= s,
        0 < q,
        0 <= amount,
        0 < price,
        0 < other,
        s * q <= amount * price,
        (amount + 1) * (other * price) <= bound * q,
    ensures
        other * s <= bound,
{
}

/// An input of asset A below what the whole way down to the target takes leaves
/// the price at or above the target.
proof fn lemma_a_in_short(price: int, target: int, liquidity: int, net: int)
    requires
        0 < target < price,
        0 <= liquidity,
        0 <= net < (liquidity * 0x1_0000_0000_0000_0000 * (price - target)) / (target * price),
    ensures
        liquidity > 0,
        target <= (liquidity * price) / (liquidity + (net * price) / 0x1_0000_0000_0000_0000)
            <= price,
{
    let q = 0x1_0000_0000_0000_0000int;
    let whole = liquidity * q * (price - target);
    let tp = target * price;
    assert(0 < tp) by (nonlinear_arith)
        requires
            0 < target < price,
            tp == target * price,
    ;
    assert(0 <= whole) by (nonlinear_arith)
        requires
            0 <= liquidity,
            target < price,
            whole == liquidity * q * (price - target),
            q > 0,
    ;
    if liquidity == 0 {
        assert(whole == 0) by (nonlinear_arith)
            requires
                liquidity == 0,
                whole == liquidity * q * (price - target),
        ;
    }
    lemma_floor(whole, tp);
    let max = whole / tp;
    assert((net + 1) * tp <= max * tp) by (nonlinear_arith)
        requires
            net + 1 <= max,
            0 < tp,
    ;
    assert(0 <= net * price) by (nonlinear_arith)
        requires
            0 <= net,
            0 < price,
    ;
    lemma_floor(net * price, q);
    let s = (net * price) / q;
    let bound = liquidity * (price - target);
    assert(bound * q == whole) by (nonlinear_arith)
        requires
            bound == liquidity * (price - target),
            whole == liquidity * q * (price - target),
    ;
    lemma_scaled_by_price(s, q, net, price, target, bound);
    let den = liquidity + s;
    assert(target * den <= liquidity * price) by (nonlinear_arith)
        requires
            den == liquidity + s,
            target * s <= bound,
            bound == liquidity * (price - target),
    ;
    lemma_floor_at_least(liquidity * price, den, target);
    assert(liquidity * price <= price * den) by (nonlinear_arith)
        requires
            den == liquidity + s,
            0 <= s,
            0 < price,
    ;
    assert(0 <= liquidity * price) by (nonlinear_arith)
        requires
            0 <= liquidity,
            0 < price,
    ;
    lemma_floor_at_most(liquidity * price, den, price);
}

/// An output of asset A below what the whole way up to the target gives leaves
/// the price at or below the target.
proof fn lemma_a_out_short(price: int, target: int, liquidity: int, out: int)
    requires
        0 < price < target,
        0 <= liquidity,
        0 <= out < (liquidity * 0x1_0000_0000_0000_0000 * (target - price)) / (price * target),
        (out * price) / 0x1_0000_0000_0000_0000 < liquidity,
    ensures
        price <= (liquidity * price) / (liquidity - (out * price) / 0x1_0000_0000_0000_0000)
            <= target,
{
    let q = 0x1_0000_0000_0000_0000int;
    let whole = liquidity * q * (target - price);
    let pt = price * target;
    assert(0 < pt) by (nonlinear_arith)
        requires
            0 < price < target,
            pt == price * target,
    ;
    assert(0 <= whole) by (nonlinear_arith)
        requires
            0 <= liquidity,
            price < target,
            whole == liquidity * q * (target - price),
            q > 0,
    ;
    lemma_floor(whole, pt);
    let max = whole / pt;
    assert((out + 1) * pt <= max * pt) by (nonlinear_arith)
        requires
            out + 1 <= max,
            0 < pt,
    ;
    assert(pt == target * price) by (nonlinear_arith)
        requires
            pt == price * target,
    ;
    assert(0 <= out * price) by (nonlinear_arith)
        requires
            0 <= out,
            0 < price,
    ;
    lemma_floor(out * price, q);
    let s = (out * price) / q;
    let bound = liquidity * (target - price);
    assert(bound * q == whole) by (nonlinear_arith)
        requires
            bound == liquidity * (target - price),
            whole == liquidity * q * (target - price),
    ;
    lemma_scaled_by_price(s, q, out, price, target, bound);
    let den = liquidity - s;
    assert(liquidity * price <= target * den) by (nonlinear_arith)
        requires
            den == liquidity - s,
            target * s <= bound,
            bound == liquidity * (target - price),
    ;
    assert(0 <= liquidity * price) by (nonlinear_arith)
        requires
            0 <= liquidity,
            0 < price,
    ;
    lemma_floor_at_most(liquidity * price, den, target);
    assert(price * den <= liquidity * price) by (nonlinear_arith)
        requires
            den == liquidity - s,
            0 <= s,
            0 < price,
    ;
    lemma_floor_at_least(liquidity * price, den, price);
}

/// A step never carries the price past its target: the price reached lies between
/// the current price and the target, both included.
pub proof fn lemma_swap_step_price_between(
    sqrt_price_current: u128,
    sqrt_price_target: u128,
    liquidity: u128,
    amount_remaining: u128,
    fee_rate: u128,
    exact_in: bool,
)
    requires
        swap_step_spec(
            sqrt_price_current,
            sqrt_price_target,
            liquidity,
            amount_remaining,
            fee_rate,
            exact_in,
        ) is Ok,
    ensures
        ({
            let sqrt_price_next = swap_step_spec(
                sqrt_price_current,
                sqrt_price_target,
                liquidity,
                amount_remaining,
                fee_rate,
                exact_in,
            )->Ok_0.2;
            lower_of(sqrt_price_current, sqrt_price_target) <= sqrt_price_next <= upper_of(
                sqrt_price_current,
                sqrt_price_target,
            )
        }),
{
    let current = sqrt_price_current as int;
    let target = sqrt_price_target as int;
    let zero_for_one = sqrt_price_target < sqrt_price_current;
    let budget = step_budget_spec(amount_remaining, fee_rate, exact_in);
    if sqrt_price_current != sqrt_price_target && !step_covers_target_spec(
        sqrt_price_current,
        sqrt_price_target,
        liquidity,
        amount_remaining,
        fee_rate,
        exact_in,
    ) {
        assert(bounded_leg_spec(
            sqrt_price_current,
            sqrt_price_target,
            liquidity,
            budget,
            exact_in,
        ) is Ok);
        if exact_in == zero_for_one {
            // Asset A is the bounded side.
            lemma_amount_a_delta_fits(sqrt_price_current, sqrt_price_target, liquidity);
            if zero_for_one {
                lemma_a_in_short(current, target, liquidity as int, budget as int);
            } else {
                lemma_a_out_short(current, target, liquidity as int, budget as int);
            }
        } else {
            // Asset B is the bounded side.
            let gap = if zero_for_one {
                current - target
            } else {
                target - current
            };
            lemma_b_side_short(gap, liquidity as int, budget as int);
        }
    }
}

/// The amount of asset A that `liquidity` holds between the prices `lo` and `hi`,
/// as a number without bound.
pub open spec fn asset_a_between(lo: nat, hi: nat, liquidity: nat) -> nat {
    (liquidity * (Q64 as nat) * ((hi - lo) as nat)) / (lo * hi)
}

/// The amount of asset B that `liquidity` holds between the prices `lo` and `hi`,
/// as a number without bound.
pub open spec fn asset_b_between(lo: nat, hi: nat, liquidity: nat) -> nat {
    (liquidity * ((hi - lo) as nat)) / (Q64 as nat)
}

/// What `liquidity` holds of the outgoing asset between the current price and the
/// target of a step: asset B where the price falls, asset A where it rises.
pub open spec fn output_reserve_spec(
    sqrt_price_current: u128,
    sqrt_price_target: u128,
    liquidity: u128,
) -> nat {
    if sqrt_price_target < sqrt_price_current {
        asset_b_between(sqrt_price_target as nat, sqrt_price_current as nat, liquidity as nat)
    } else {
        asset_a_between(sqrt_price_current as nat, sqrt_price_target as nat, liquidity as nat)
    }
}

/// Two fractions in order have their quotients in order.
proof fn lemma_fraction_order(x: int, d1: int, y: int, d2: int)
    requires
        0 <= x,
        0 <= y,
        0 < d1,
        0 < d2,
        x * d2 <= y * d1,
    ensures
        x / d1 <= y / d2,
{
    lemma_floor(x, d1);
    let q = x / d1;
    assert(q * d2 <= y) by (nonlinear_arith)
        requires
            q * d1 <= x,
            x * d2 <= y * d1,
            0 < d1,
            0 < d2,
            0 <= q,
    ;
    lemma_floor_at_least(y, d2, q);
}

/// The further the price rises, the more of asset A lies on its way.
proof fn lemma_asset_a_grows_with_the_way(price: int, reached: int, target: int, n: int)
    requires
        0 < price <= reached <= target,
        0 <= n,
    ensures
        (n * (reached - price)) / (price * reached) <= (n * (target - price)) / (price * target),
{
    let x = n * (reached - price);
    let y = n * (target - price);
    let d1 = price * reached;
    let d2 = price * target;
    assert(0 <= x && 0 <= y && 0 < d1 && 0 < d2) by (nonlinear_arith)
        requires
            0 < price <= reached <= target,
            0 <= n,
            x == n * (reached - price),
            y == n * (target - price),
            d1 == price * reached,
            d2 == price * target,
    ;
    assert((reached - price) * target <= (target - price) * reached) by (nonlinear_arith)
        requires
            0 < price <= reached <= target,
    ;
    assert(x * d2 <= y * d1) by (nonlinear_arith)
        requires
            (reached - price) * target <= (target - price) * reached,
            0 <= n,
            0 < price,
            x == n * (reached - price),
            y == n * (target - price),
            d1 == price * reached,
            d2 == price * target,
    ;
    lemma_fraction_order(x, d1, y, d2);
}

/// The further the price falls, the more of asset B lies on its way.
proof fn lemma_asset_b_grows_with_the_way(gap: int, whole_gap: int, liquidity: int)
    requires
        0 <= gap <= whole_gap,
        0 <= liquidity,
    ensures
        (liquidity * gap) / 0x1_0000_0000_0000_0000 <= (liquidity * whole_gap)
            / 0x1_0000_0000_0000_0000,
{
    assert(liquidity * gap <= liquidity * whole_gap) by (nonlinear_arith)
        requires
            0 <= gap <= whole_gap,
            0 <= liquidity,
    ;
    lemma_div_is_ordered(liquidity * gap, liquidity * whole_gap, 0x1_0000_0000_0000_0000);
}

/// No step gives out more of the outgoing asset than the liquidity holds between
/// the current price and the target of the step.
pub proof fn lemma_swap_step_output_within_reserve(
    sqrt_price_current: u128,
    sqrt_price_target: u128,
    liquidity: u128,
    amount_remaining: u128,
    fee_rate: u128,
    exact_in: bool,
)
    requires
        swap_step_spec(
            sqrt_price_current,
            sqrt_price_target,
            liquidity,
            amount_remaining,
            fee_rate,
            exact_in,
        ) is Ok,
    ensures
        swap_step_spec(
            sqrt_price_current,
            sqrt_price_target,
            liquidity,
            amount_remaining,
            fee_rate,
            exact_in,
        )->Ok_0.1 <= output_reserve_spec(sqrt_price_current, sqrt_price_target, liquidity),
{
    if sqrt_price_current != sqrt_price_target {
        let next = swap_step_spec(
            sqrt_price_current,
            sqrt_price_target,
            liquidity,
            amount_remaining,
            fee_rate,
            exact_in,
        )->Ok_0.2;
        let zero_for_one = sqrt_price_target < sqrt_price_current;
        lemma_swap_step_price_between(
            sqrt_price_current,
            sqrt_price_target,
            liquidity,
            amount_remaining,
            fee_rate,
            exact_in,
        );
        if zero_for_one {
            lemma_asset_b_grows_with_the_way(
                sqrt_price_current - next,
                sqrt_price_current - sqrt_price_target,
                liquidity as int,
            );
        } else {
            if exact_in {
                lemma_amount_a_delta_fits(sqrt_price_current, next, liquidity);
            } else {
                lemma_amount_a_delta_fits(sqrt_price_current, sqrt_price_target, liquidity);
            }
            lemma_asset_a_grows_with_the_way(
                sqrt_price_current as int,
                next as int,
                sqrt_price_target as int,
                liquidity * Q64,
            );
        }
    }
}

/// An exact input of asset B that stops short of the target pays for the way it
/// moves the price: the amount of asset B between the price before and the price
/// after is not above the input net of the fee, and falls short of it by no more
/// than `L / 2^64 + 1`.
pub proof fn lemma_asset_b_input_pays_its_way(
    sqrt_price_current: u128,
    sqrt_price_target: u128,
    liquidity: u128,
    amount_remaining: u128,
    fee_rate: u128,
)
    requires
        sqrt_price_current < sqrt_price_target,
        swap_step_spec(
            sqrt_price_current,
            sqrt_price_target,
            liquidity,
            amount_remaining,
            fee_rate,
            true,
        ) is Ok,
        !step_covers_target_spec(
            sqrt_price_current,
            sqrt_price_target,
            liquidity,
            amount_remaining,
            fee_rate,
            true,
        ),
    ensures
        ({
            let (amount_in, amount_out, sqrt_price_next, fee_amount) = swap_step_spec(
                sqrt_price_current,
                sqrt_price_target,
                liquidity,
                amount_remaining,
                fee_rate,
                true,
            )->Ok_0;
            let moved = amount_b_delta_spec(sqrt_price_current, sqrt_price_next, liquidity);
            &&& moved is Ok
            &&& moved->Ok_0 <= amount_in - fee_amount
            &&& amount_in - fee_amount - moved->Ok_0 <= liquidity / Q64 + 1
        }),
{
    lemma_swap_step_conservation(
        sqrt_price_current,
        sqrt_price_target,
        liquidity,
        amount_remaining,
        fee_rate,
        true,
    );
    let q = Q64 as int;
    let net = step_budget_spec(amount_remaining, fee_rate, true) as int;
    let l = liquidity as int;
    lemma_b_side_short(sqrt_price_target - sqrt_price_current, l, net);
    lemma_floor(net * q, l);
    let step = (net * q) / l;
    assert(l * step == step * l) by (nonlinear_arith);
    lemma_floor_at_most(l * step, q, net);
    assert(0 <= l * step) by (nonlinear_arith)
        requires
            0 <= l,
            0 <= step,
    ;
    lemma_floor(l, q);
    let slack = l / q + 1;
    if net - slack >= 0 {
        assert((net - slack) * q <= l * step) by (nonlinear_arith)
            requires
                net * q < step * l + l,
                l < (l / q) * q + q,
                slack == l / q + 1,
                l * step == step * l,
        ;
        lemma_floor_at_least(l * step, q, net - slack);
    } else {
        lemma_floor(l * step, q);
    }
}

/// The amount of asset A between the price before and the price that a net input
/// of asset A leaves, against that input.
proof fn lemma_asset_a_short_bounds(price: int, next: int, liquidity: int, net: int)
    requires
        0 < next <= price,
        0 <= liquidity,
        0 <= net,
        0 < liquidity + (net * price) / 0x1_0000_0000_0000_0000,
        next == (liquidity * price) / (liquidity + (net * price) / 0x1_0000_0000_0000_0000),
    ensures
        net <= (liquidity * 0x1_0000_0000_0000_0000 * (price - next)) / (next * price)
            + 0x1_0000_0000_0000_0000int / price + 1,
        (liquidity * 0x1_0000_0000_0000_0000 * (price - next)) / (next * price) <= net + net / next
            + (liquidity * 0x1_0000_0000_0000_0000) / (next * price) + 1,
{
    let q = 0x1_0000_0000_0000_0000int;
    assert(0 <= net * price && 0 <= liquidity * price && 0 < next * price && 0 <= liquidity * q)
        by (nonlinear_arith)
        requires
            0 < next <= price,
            0 <= liquidity,
            0 <= net,
            q > 0,
    ;
    lemma_floor(net * price, q);
    let s = (net * price) / q;
    let den = liquidity + s;
    lemma_floor(liquidity * price, den);
    let np = next * price;
    let x = liquidity * q * (price - next);
    assert(0 <= x) by (nonlinear_arith)
        requires
            0 <= liquidity * q,
            next <= price,
            x == liquidity * q * (price - next),
    ;
    // The way reached costs at least what the price formula took.
    assert(q * s * next <= x) by (nonlinear_arith)
        requires
            next * den <= liquidity * price,
            den == liquidity + s,
            x == liquidity * q * (price - next),
            q > 0,
    ;
    assert((q * s) * np <= x * price) by (nonlinear_arith)
        requires
            q * s * next <= x,
            np == next * price,
            0 < price,
    ;
    assert(0 <= q * s) by (nonlinear_arith)
        requires
            0 <= s,
            q > 0,
    ;
    lemma_fraction_order(q * s, price, x, np);
    lemma_floor(q, price);
    let lost = q / price + 1;
    if net - lost >= 0 {
        assert((net - lost) * price <= q * s) by (nonlinear_arith)
            requires
                net * price < s * q + q,
                q < (q / price) * price + price,
                lost == q / price + 1,
                0 < price,
        ;
        lemma_floor_at_least(q * s, price, net - lost);
    } else {
        lemma_floor(q * s, price);
    }
    // And at most one unit of the price more.
    lemma_floor(net, next);
    lemma_floor(liquidity * q, np);
    let a = net / next;
    let c = (liquidity * q) / np;
    assert(x < (net + a + c + 2) * np) by (nonlinear_arith)
        requires
            liquidity * price < next * den + den,
            den == liquidity + s,
            s * q <= net * price,
            x == liquidity * q * (price - next),
            net < a * next + next,
            liquidity * q < c * np + np,
            np == next * price,
            0 < next <= price,
            0 <= net,
            0 <= s,
            q > 0,
    ;
    lemma_floor_below(x, np, net + a + c + 2);
}

/// An exact input of asset A that stops short of the target pays for the way it
/// moves the price, to within rounding: the amount of asset A between the price
/// before and the price after falls short of the input net of the fee by no more
/// than `2^64 / P + 1`, and exceeds it by no more than
/// `net / P' + L * 2^64 / (P' * P) + 1`, with `P` the price before and `P'` the
/// price after.
pub proof fn lemma_asset_a_input_pays_its_way(
    sqrt_price_current: u128,
    sqrt_price_target: u128,
    liquidity: u128,
    amount_remaining: u128,
    fee_rate: u128,
)
    requires
        sqrt_price_target < sqrt_price_current,
        swap_step_spec(
            sqrt_price_current,
            sqrt_price_target,
            liquidity,
            amount_remaining,
            fee_rate,
            true,
        ) is Ok,
        !step_covers_target_spec(
            sqrt_price_current,
            sqrt_price_target,
            liquidity,
            amount_remaining,
            fee_rate,
            true,
        ),
    ensures
        ({
            let (amount_in, amount_out, sqrt_price_next, fee_amount) = swap_step_spec(
                sqrt_price_current,
                sqrt_price_target,
                liquidity,
                amount_remaining,
                fee_rate,
                true,
            )->Ok_0;
            let net = amount_in - fee_amount;
            let moved = amount_a_delta_spec(sqrt_price_next, sqrt_price_current, liquidity);
            &&& sqrt_price_next > 0
            &&& moved is Ok
            &&& net <= moved->Ok_0 + Q64 / sqrt_price_current + 1
            &&& moved->Ok_0 <= net + net / (sqrt_price_next as int) + (liquidity * Q64) / (
            sqrt_price_next * sqrt_price_current) + 1
        }),
{
    lemma_swap_step_conservation(
        sqrt_price_current,
        sqrt_price_target,
        liquidity,
        amount_remaining,
        fee_rate,
        true,
    );
    lemma_swap_step_price_between(
        sqrt_price_current,
        sqrt_price_target,
        liquidity,
        amount_remaining,
        fee_rate,
        true,
    );
    let next = swap_step_spec(
        sqrt_price_current,
        sqrt_price_target,
        liquidity,
        amount_remaining,
        fee_rate,
        true,
    )->Ok_0.2;
    let net = step_budget_spec(amount_remaining, fee_rate, true);
    lemma_amount_a_delta_fits(next, sqrt_price_current, liquidity);
    lemma_asset_a_short_bounds(
        sqrt_price_current as int,
        next as int,
        liquidity as int,
        net as int,
    );
}

} // verus!
