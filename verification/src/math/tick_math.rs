use crate::errors::Errors;
use crate::math::curve_laws::{
    lemma_ratio_bounds, lemma_scaled_down, lemma_sqrt_price_bounds, lemma_tick_of_bracket,
};
use crate::math::full_math::Q64;
use crate::state::tick::Tick;
use vstd::prelude::*;

verus! {

/// The lowest tick of the curve.
pub const MIN_TICK: i32 = -443636;

/// The highest tick of the curve.
pub const MAX_TICK: i32 = 443636;

/// The square-root price at `MIN_TICK`.
pub const MIN_SQRT_PRICE: u128 = 4295048016;

/// The square-root price at `MAX_TICK`.
pub const MAX_SQRT_PRICE: u128 = 79226673521066979257578248091;

/// The number of bits that the magnitude of a tick may take.
pub const TICK_BITS: u32 = 19;

/// The factor of bit `i` of a tick's magnitude: `1.0001^(-2^i / 2)` in the 64.64
/// format, rounded to the nearest unit. Past the last bit it is one.
pub open spec fn tick_factor(i: nat) -> nat {
    if i == 0 {
        18445821805675392312
    } else if i == 1 {
        18444899583751176498
    } else if i == 2 {
        18443055278223354163
    } else if i == 3 {
        18439367220385604838
    } else if i == 4 {
        18431993317065449818
    } else if i == 5 {
        18417254355718160513
    } else if i == 6 {
        18387811781193591352
    } else if i == 7 {
        18329067761203520168
    } else if i == 8 {
        18212142134806087855
    } else if i == 9 {
        17980523815641551639
    } else if i == 10 {
        17526086738831147014
    } else if i == 11 {
        16651378430235024244
    } else if i == 12 {
        15030750278693429945
    } else if i == 13 {
        12247334978882834400
    } else if i == 14 {
        8131365268884726201
    } else if i == 15 {
        3584323654723342298
    } else if i == 16 {
        696457651847595234
    } else if i == 17 {
        26294789957452057
    } else if i == 18 {
        37481735321082
    } else {
        18446744073709551616
    }
}

/// The factor of bit `i`.
fn factor_of_bit(i: u32) -> (r: u128)
    requires
        i < 19,
    ensures
        r == tick_factor(i as nat),
        0 < r < Q64,
{
    if i == 0 {
        18445821805675392312
    } else if i == 1 {
        18444899583751176498
    } else if i == 2 {
        18443055278223354163
    } else if i == 3 {
        18439367220385604838
    } else if i == 4 {
        18431993317065449818
    } else if i == 5 {
        18417254355718160513
    } else if i == 6 {
        18387811781193591352
    } else if i == 7 {
        18329067761203520168
    } else if i == 8 {
        18212142134806087855
    } else if i == 9 {
        17980523815641551639
    } else if i == 10 {
        17526086738831147014
    } else if i == 11 {
        16651378430235024244
    } else if i == 12 {
        15030750278693429945
    } else if i == 13 {
        12247334978882834400
    } else if i == 14 {
        8131365268884726201
    } else if i == 15 {
        3584323654723342298
    } else if i == 16 {
        696457651847595234
    } else if i == 17 {
        26294789957452057
    } else {
        37481735321082
    }
}

/// The ratio `r` after the bits of `rest` have been applied to it, lowest first,
/// the lowest of them counting as bit `i`: for every set bit the ratio is
/// multiplied by the factor of that bit and rounded down to the 64.64 format.
pub open spec fn fold_bits(r: nat, rest: nat, i: nat) -> nat
    decreases 19 - i,
{
    if i >= 19 {
        r
    } else if rest % 2 == 1 {
        fold_bits(r * tick_factor(i) / (Q64 as nat), rest / 2, i + 1)
    } else {
        fold_bits(r, rest / 2, i + 1)
    }
}

/// `1.0001^(-m / 2)` in the 64.64 format, as the product of the factors of the
/// set bits of `m`.
pub open spec fn ratio_at(m: nat) -> nat {
    fold_bits(Q64 as nat, m, 0)
}

/// The square-root price at a tick, `1.0001^(tick / 2)` in the 64.64 format.
///
/// At and below zero it is the ratio of the tick's magnitude; above zero it is
/// the reciprocal of that ratio, `(2^128 - 1) / ratio` rounded down.
pub open spec fn sqrt_price_at_tick(tick: int) -> nat {
    if tick > 0 {
        (u128::MAX as nat) / ratio_at(tick as nat)
    } else {
        ratio_at((-tick) as nat)
    }
}

/// The highest tick from `MIN_TICK` to `hi` whose price is not above `price`, and
/// `MIN_TICK` where there is none.
pub open spec fn tick_at_or_below(price: nat, hi: int) -> int
    decreases hi - MIN_TICK,
{
    if hi <= MIN_TICK {
        MIN_TICK as int
    } else if sqrt_price_at_tick(hi) <= price {
        hi
    } else {
        tick_at_or_below(price, hi - 1)
    }
}

/// The tick of a square-root price: the highest tick of the curve whose price is
/// not above it.
pub open spec fn tick_at_sqrt_price(price: nat) -> int {
    tick_at_or_below(price, MAX_TICK as int)
}

/// Whether a tick lies on the curve.
pub open spec fn tick_in_range(tick: int) -> bool {
    MIN_TICK <= tick <= MAX_TICK
}

/// The square-root price at a tick of the curve.
fn sqrt_price_on_curve(tick: i32) -> (r: u128)
    requires
        tick_in_range(tick as int),
    ensures
        r == sqrt_price_at_tick(tick as int),
        MIN_SQRT_PRICE <= r <= MAX_SQRT_PRICE,
{
    let magnitude: u32 = if tick < 0 {
        (-tick) as u32
    } else {
        tick as u32
    };
    let mut ratio: u128 = Q64;
    let mut rest: u32 = magnitude;
    let mut i: u32 = 0;
    while i < TICK_BITS
        invariant
            i <= 19,
            ratio <= Q64,
            fold_bits(ratio as nat, rest as nat, i as nat) == ratio_at(magnitude as nat),
        decreases 19 - i,
    {
        if rest % 2 == 1 {
            let factor = factor_of_bit(i);
            proof {
                lemma_scaled_down(ratio as nat, factor as nat);
            }
            ratio = ratio * factor / Q64;
        }
        rest = rest / 2;
        i = i + 1;
    }
    proof {
        lemma_ratio_bounds(magnitude as nat);
        lemma_sqrt_price_bounds(tick as int);
    }
    if tick > 0 {
        u128::MAX / ratio
    } else {
        ratio
    }
}

/// The square-root price at `tick`, and `InvalidTick` for a tick that is not on the
/// curve.
pub fn get_sqrt_price_from_tick(tick: i32) -> (r: Result<u128, Errors>)
    ensures
        tick_in_range(tick as int) ==> r is Ok && r->Ok_0 == sqrt_price_at_tick(tick as int),
        !tick_in_range(tick as int) ==> r == Err::<u128, Errors>(Errors::InvalidTick),
        r is Ok ==> MIN_SQRT_PRICE <= r->Ok_0 <= MAX_SQRT_PRICE,
{
    if tick < MIN_TICK || tick > MAX_TICK {
        return Err(Errors::InvalidTick);
    }
    Ok(sqrt_price_on_curve(tick))
}

/// The tick of a square-root price: the highest tick whose price is not above it.
/// A price below `MIN_SQRT_PRICE` or above `MAX_SQRT_PRICE` has no tick on the
/// curve and gives `InvalidTick`.
pub fn get_tick_from_sqrt_price(sqrt_price_x64: u128) -> (r: Result<i32, Errors>)
    ensures
        MIN_SQRT_PRICE <= sqrt_price_x64 <= MAX_SQRT_PRICE ==> r is Ok && r->Ok_0
            == tick_at_sqrt_price(sqrt_price_x64 as nat),
        !(MIN_SQRT_PRICE <= sqrt_price_x64 <= MAX_SQRT_PRICE) ==> r == Err::<i32, Errors>(
            Errors::InvalidTick,
        ),
        r is Ok ==> {
            let tick = r->Ok_0;
            &&& tick_in_range(tick as int)
            &&& sqrt_price_at_tick(tick as int) <= sqrt_price_x64
            &&& tick < MAX_TICK ==> sqrt_price_x64 < sqrt_price_at_tick(tick + 1)
        },
{
    if sqrt_price_x64 < MIN_SQRT_PRICE || sqrt_price_x64 > MAX_SQRT_PRICE {
        return Err(Errors::InvalidTick);
    }
    proof {
        lemma_sqrt_price_bounds(0);
    }
    let mut lo: i32 = MIN_TICK;
    let mut hi: i32 = MAX_TICK + 1;
    while hi - lo > 1
        invariant
            MIN_TICK <= lo < hi <= MAX_TICK + 1,
            sqrt_price_at_tick(lo as int) <= sqrt_price_x64,
            hi <= MAX_TICK ==> sqrt_price_x64 < sqrt_price_at_tick(hi as int),
        decreases hi - lo,
    {
        let mid = lo + (hi - lo) / 2;
        let price = sqrt_price_on_curve(mid);
        if price <= sqrt_price_x64 {
            lo = mid;
        } else {
            hi = mid;
        }
    }
    proof {
        lemma_tick_of_bracket(sqrt_price_x64 as nat, lo as int);
    }
    Ok(lo)
}

/// Whether `tick` lies beyond `current` in the direction of a swap: below it where
/// asset A comes in, above it where asset B does.
pub open spec fn lies_beyond(tick: i32, current: i32, a_to_b: bool) -> bool {
    if a_to_b {
        tick < current
    } else {
        tick > current
    }
}

/// The tick of `ticks` nearest to `current` among those beyond it, if there is one.
pub open spec fn next_tick_spec(ticks: Seq<i32>, current: i32, a_to_b: bool) -> Option<i32>
    decreases ticks.len(),
{
    if ticks.len() == 0 {
        None
    } else {
        let last = ticks.last();
        match next_tick_spec(ticks.drop_last(), current, a_to_b) {
            None => if lies_beyond(last, current, a_to_b) {
                Some(last)
            } else {
                None
            },
            Some(best) => if lies_beyond(last, current, a_to_b) && lies_beyond(
                best,
                last,
                a_to_b,
            ) {
                Some(last)
            } else {
                Some(best)
            },
        }
    }
}

/// What `next_tick_spec` finds is one of the ticks, lies beyond `current`, and no
/// tick lies between the two; it finds nothing only where no tick lies beyond.
pub proof fn lemma_next_tick_is_nearest(ticks: Seq<i32>, current: i32, a_to_b: bool)
    ensures
        match next_tick_spec(ticks, current, a_to_b) {
            Some(t) => {
                &&& ticks.contains(t)
                &&& lies_beyond(t, current, a_to_b)
                &&& forall|j: int|
                    0 <= j < ticks.len() && lies_beyond(#[trigger] ticks[j], current, a_to_b)
                        ==> !lies_beyond(t, ticks[j], a_to_b)
            },
            None => forall|j: int|
                0 <= j < ticks.len() ==> !lies_beyond(#[trigger] ticks[j], current, a_to_b),
        },
    decreases ticks.len(),
{
    if ticks.len() > 0 {
        let front = ticks.drop_last();
        lemma_next_tick_is_nearest(front, current, a_to_b);
        assert(forall|j: int| 0 <= j < front.len() ==> front[j] == ticks[j]);
        match next_tick_spec(front, current, a_to_b) {
            Some(best) => {
                let k = choose|k: int| 0 <= k < front.len() && front[k] == best;
                assert(ticks[k] == best);
            },
            None => {},
        }
        match next_tick_spec(ticks, current, a_to_b) {
            Some(t) => {
                assert(ticks.contains(t)) by {
                    if t == ticks.last() {
                        assert(ticks[ticks.len() - 1] == t);
                    }
                }
                assert forall|j: int|
                    0 <= j < ticks.len() && lies_beyond(
                        #[trigger] ticks[j],
                        current,
                        a_to_b,
                    ) implies !lies_beyond(t, ticks[j], a_to_b) by {
                    if j < front.len() {
                        assert(front[j] == ticks[j]);
                    }
                }
            },
            None => {
                assert forall|j: int| 0 <= j < ticks.len() implies !lies_beyond(
                    #[trigger] ticks[j],
                    current,
                    a_to_b,
                ) by {
                    if j < front.len() {
                        assert(front[j] == ticks[j]);
                    }
                }
            },
        }
    }
}

/// The initialized tick nearest to `tick_current` in the direction of a swap:
/// strictly below it where asset A comes in, strictly above it where asset B does.
/// `TickNotFound` says that no initialized tick lies in that direction.
pub fn get_next_tick(tick_current: i32, initialized_ticks: &Vec<i32>, a_to_b: bool) -> (r: Result<
    i32,
    Errors,
>)
    ensures
        r == match next_tick_spec(initialized_ticks@, tick_current, a_to_b) {
            Some(t) => Ok::<i32, Errors>(t),
            None => Err::<i32, Errors>(Errors::TickNotFound),
        },
        r is Ok ==> {
            let t = r->Ok_0;
            &&& initialized_ticks@.contains(t)
            &&& lies_beyond(t, tick_current, a_to_b)
            &&& forall|j: int|
                0 <= j < initialized_ticks@.len() && lies_beyond(
                    #[trigger] initialized_ticks@[j],
                    tick_current,
                    a_to_b,
                ) ==> !lies_beyond(t, initialized_ticks@[j], a_to_b)
        },
        r is Err ==> forall|j: int|
            0 <= j < initialized_ticks@.len() ==> !lies_beyond(
                #[trigger] initialized_ticks@[j],
                tick_current,
                a_to_b,
            ),
{
    let mut best: Option<i32> = None;
    let mut i: usize = 0;
    while i < initialized_ticks.len()
        invariant
            i <= initialized_ticks@.len(),
            best == next_tick_spec(initialized_ticks@.take(i as int), tick_current, a_to_b),
        decreases initialized_ticks@.len() - i,
    {
        let tick = initialized_ticks[i];
        proof {
            let upto = initialized_ticks@.take(i + 1);
            assert(upto.drop_last() =~= initialized_ticks@.take(i as int));
            assert(upto.last() == tick);
        }
        let beyond = if a_to_b {
            tick < tick_current
        } else {
            tick > tick_current
        };
        if beyond {
            match best {
                None => {
                    best = Some(tick);
                },
                Some(b) => {
                    let nearer = if a_to_b {
                        b < tick
                    } else {
                        b > tick
                    };
                    if nearer {
                        best = Some(tick);
                    }
                },
            }
        }
        i = i + 1;
    }
    proof {
        assert(initialized_ticks@.take(i as int) =~= initialized_ticks@);
        lemma_next_tick_is_nearest(initialized_ticks@, tick_current, a_to_b);
    }
    match best {
        Some(t) => Ok(t),
        None => Err(Errors::TickNotFound),
    }
}

/// The tick record after the price has crossed it. Where asset A comes in, the fee
/// growth of asset A outside the tick becomes the global growth less its old value;
/// where asset B comes in, the same holds of asset B. A global growth below the
/// old value is refused with `MathError`.
pub open spec fn cross_tick_spec(
    tick: Tick,
    fee_growth_global_a: u128,
    fee_growth_global_b: u128,
    a_to_b: bool,
) -> Result<Tick, Errors> {
    if a_to_b {
        if fee_growth_global_a < tick.fee_growth_outside_a {
            Err(Errors::MathError)
        } else {
            Ok(
                Tick {
                    fee_growth_outside_a: (fee_growth_global_a - tick.fee_growth_outside_a) as u128,
                    ..tick
                },
            )
        }
    } else {
        if fee_growth_global_b < tick.fee_growth_outside_b {
            Err(Errors::MathError)
        } else {
            Ok(
                Tick {
                    fee_growth_outside_b: (fee_growth_global_b - tick.fee_growth_outside_b) as u128,
                    ..tick
                },
            )
        }
    }
}

/// Books the crossing of a tick in its record. The record is left as it was where
/// the crossing is refused. Its `liquidity_net` is for the caller to apply.
pub fn cross_tick(
    tick_account: &mut Tick,
    fee_growth_global_a: u128,
    fee_growth_global_b: u128,
    a_to_b: bool,
) -> (r: Result<(), Errors>)
    ensures
        match cross_tick_spec(*old(tick_account), fee_growth_global_a, fee_growth_global_b, a_to_b) {
            Ok(t) => r is Ok && *final(tick_account) == t,
            Err(e) => r == Err::<(), Errors>(e) && *final(tick_account) == *old(tick_account),
        },
{
    if a_to_b {
        match fee_growth_global_a.checked_sub(tick_account.fee_growth_outside_a) {
            Some(v) => {
                tick_account.fee_growth_outside_a = v;
            },
            None => {
                return Err(Errors::MathError);
            },
        }
    } else {
        match fee_growth_global_b.checked_sub(tick_account.fee_growth_outside_b) {
            Some(v) => {
                tick_account.fee_growth_outside_b = v;
            },
            None => {
                return Err(Errors::MathError);
            },
        }
    }
    Ok(())
}

/// The first place from `from` on whose tick is not below `tick`, and the length
/// of `ticks` where there is none.
pub open spec fn first_not_below(ticks: Seq<i32>, tick: i32, from: nat) -> nat
    decreases ticks.len() - from,
{
    if from >= ticks.len() {
        ticks.len()
    } else if ticks[from as int] >= tick {
        from
    } else {
        first_not_below(ticks, tick, from + 1)
    }
}

/// `ticks` with `tick` set before the first tick that is not below it, and
/// `ticks` itself where that tick is `tick`.
pub open spec fn insert_tick_spec(ticks: Seq<i32>, tick: i32) -> Seq<i32> {
    let at = first_not_below(ticks, tick, 0);
    if at < ticks.len() && ticks[at as int] == tick {
        ticks
    } else {
        ticks.insert(at as int, tick)
    }
}

/// Whether a sequence of ticks rises strictly, so that it holds no tick twice.
pub open spec fn strictly_rising(ticks: Seq<i32>) -> bool {
    forall|i: int, j: int| 0 <= i < j < ticks.len() ==> ticks[i] < ticks[j]
}

/// Where `first_not_below` points: past the ticks below `tick`, at a tick that is
/// not below it or at the end.
proof fn lemma_first_not_below(ticks: Seq<i32>, tick: i32, from: nat)
    requires
        from <= ticks.len(),
    ensures
        from <= first_not_below(ticks, tick, from) <= ticks.len(),
        forall|j: int| from <= j < first_not_below(ticks, tick, from) ==> ticks[j] < tick,
        first_not_below(ticks, tick, from) < ticks.len() ==> ticks[first_not_below(
            ticks,
            tick,
            from,
        ) as int] >= tick,
    decreases ticks.len() - from,
{
    if from < ticks.len() && ticks[from as int] < tick {
        lemma_first_not_below(ticks, tick, from + 1);
    }
}

/// Inserting a tick keeps a rising sequence rising, and the ticks after it are the
/// ticks before it and the new one.
pub proof fn lemma_insert_tick(ticks: Seq<i32>, tick: i32)
    ensures
        insert_tick_spec(ticks, tick).contains(tick),
        forall|t: i32| ticks.contains(t) ==> insert_tick_spec(ticks, tick).contains(t),
        forall|t: i32| insert_tick_spec(ticks, tick).contains(t) ==> t == tick || ticks.contains(t),
        strictly_rising(ticks) ==> strictly_rising(insert_tick_spec(ticks, tick)),
        ticks.contains(tick) && strictly_rising(ticks) ==> insert_tick_spec(ticks, tick) == ticks,
{
    lemma_first_not_below(ticks, tick, 0);
    let at = first_not_below(ticks, tick, 0) as int;
    let after = insert_tick_spec(ticks, tick);
    if at < ticks.len() && ticks[at] == tick {
        assert(after[at] == tick);
    } else {
        assert(after[at] == tick);
        assert forall|t: i32| ticks.contains(t) implies after.contains(t) by {
            let k = choose|k: int| 0 <= k < ticks.len() && ticks[k] == t;
            if k < at {
                assert(after[k] == t);
            } else {
                assert(after[k + 1] == t);
            }
        }
        assert forall|t: i32| after.contains(t) implies t == tick || ticks.contains(t) by {
            let k = choose|k: int| 0 <= k < after.len() && after[k] == t;
            if k < at {
                assert(ticks[k] == t);
            } else if k > at {
                assert(ticks[k - 1] == t);
            }
        }
        if strictly_rising(ticks) {
            assert forall|i: int, j: int| 0 <= i < j < after.len() implies after[i] < after[j] by {
                let a = if i < at {
                    i
                } else {
                    i - 1
                };
                let b = if j < at {
                    j
                } else {
                    j - 1
                };
                if i != at && j != at {
                    assert(ticks[a] < ticks[b]);
                } else if i == at {
                    assert(ticks[at] >= tick);
                    if b > at {
                        assert(ticks[at] < ticks[b]);
                    }
                }
            }
            if ticks.contains(tick) {
                let k = choose|k: int| 0 <= k < ticks.len() && ticks[k] == tick;
                if k > at {
                    assert(ticks[at] < ticks[k]);
                }
                assert(false);
            }
        }
    }
}

/// Adds `tick` to a rising list of initialized ticks, unless the list holds it.
pub fn insert_tick(ticks: &mut Vec<i32>, tick: i32)
    ensures
        final(ticks)@ == insert_tick_spec(old(ticks)@, tick),
        final(ticks)@.contains(tick),
        strictly_rising(old(ticks)@) ==> strictly_rising(final(ticks)@),
        forall|t: i32| final(ticks)@.contains(t) <==> t == tick || old(ticks)@.contains(t),
{
    let mut i: usize = 0;
    while i < ticks.len() && ticks[i] < tick
        invariant
            i <= ticks@.len(),
            ticks@ == old(ticks)@,
            first_not_below(ticks@, tick, i as nat) == first_not_below(ticks@, tick, 0),
        decreases ticks@.len() - i,
    {
        i = i + 1;
    }
    proof {
        lemma_insert_tick(ticks@, tick);
    }
    if i < ticks.len() && ticks[i] == tick {
        return ;
    }
    ticks.insert(i, tick);
}

} // verus!
