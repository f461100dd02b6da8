// The laws of the price curve.
//
// The ratio of a magnitude `m` is a product over the set bits of `m`, rounded down
// after every factor. That it falls from `m` to `m + 1` is shown along the carry:
// `m` ends in some number of set bits below a clear one, and `m + 1` has those bits
// cleared and that one set. After these bits the two ratios are two constants,
// which the tables below hold, and the first exceeds the second by a gap that is
// wide enough to outlast the rounding of all the factors that may follow.

use crate::math::full_math::Q64;
use crate::math::tick_math::{
    fold_bits, ratio_at, sqrt_price_at_tick, tick_at_or_below, tick_at_sqrt_price, tick_factor,
    tick_in_range, MAX_SQRT_PRICE, MAX_TICK, MIN_SQRT_PRICE, MIN_TICK,
};
use vstd::arithmetic::power2::{lemma2_to64, lemma_pow2_unfold, pow2};
use vstd::prelude::*;

verus! {

/// The ratio reached after the lowest `i` bits, all of them set.
spec fn ones_ratio(i: nat) -> nat {
    if i == 0 {
        18446744073709551616
    } else if i == 1 {
        18445821805675392312
    } else if i == 2 {
        18443977407934598851
    } else if i == 3 {
        18440289165698567480
    } else if i == 4 {
        18432914893692463370
    } else if i == 5 {
        18418175195415529481
    } else if i == 6 {
        18388731148799035469
    } else if i == 7 {
        18329984191681391134
    } else if i == 8 {
        18213052719148788674
    } else if i == 9 {
        17981422819357802655
    } else if i == 10 {
        17526963021261575454
    } else if i == 11 {
        16652210978343353599
    } else if i == 12 {
        15031501797419866126
    } else if i == 13 {
        12247947330323375224
    } else if i == 14 {
        8131771826984472026
    } else if i == 15 {
        3584502866425897901
    } else if i == 16 {
        696492473859659074
    } else if i == 17 {
        26296104664083085
    } else if i == 18 {
        37483609360998
    } else if i == 19 {
        76162531
    } else {
        0
    }
}

/// A gap between two ratios before bit `i` that leaves them at least one unit
/// apart after the last bit.
spec fn gap_floor(i: nat) -> nat {
    if i == 0 {
        242202408303
    } else if i == 1 {
        242190299090
    } else if i == 2 {
        242166082481
    } else if i == 3 {
        242117656528
    } else if i == 4 {
        242020833672
    } else if i == 5 {
        241827304103
    } else if i == 6 {
        241440709104
    } else if i == 7 {
        240669372198
    } else if i == 8 {
        239134083144
    } else if i == 9 {
        236092824516
    } else if i == 10 {
        230125849686
    } else if i == 11 {
        218640513812
    } else if i == 12 {
        197360895837
    } else if i == 13 {
        160813329889
    } else if i == 14 {
        106768691122
    } else if i == 15 {
        47063873349
    } else if i == 16 {
        9144820021
    } else if i == 17 {
        345263091
    } else if i == 18 {
        492153
    } else if i == 19 {
        1
    } else {
        1
    }
}

/// Whether `x` is above `y` by 4995 to 5005 parts in 10^8, give or take `slack`
/// units.
spec fn in_band(x: nat, y: nat, slack: nat) -> bool {
    &&& y <= x
    &&& (x - y) * 100_000_000 + slack * 100_000_000 >= 4995 * y
    &&& (x - y) * 100_000_000 <= 5005 * y + slack * 100_000_000
}

/// What the proofs below read from the three tables, bit by bit.
proof fn lemma_tables(i: nat)
    requires
        i < 19,
    ensures
        0 < tick_factor(i) < Q64,
        ones_ratio(i) * tick_factor(i) / (Q64 as nat) == ones_ratio(i + 1),
        gap_floor(i) * tick_factor(i) / (Q64 as nat) >= gap_floor(i + 1),
        gap_floor(i) >= gap_floor(i + 1),
        ones_ratio(i) >= tick_factor(i) + gap_floor(i + 1),
        in_band(ones_ratio(i), tick_factor(i), 0),
{
    if i == 0 {
        assert(18446744073709551616nat * 18445821805675392312nat / 18446744073709551616nat == 18445821805675392312);
        assert(242202408303nat * 18445821805675392312nat / 18446744073709551616nat == 242190299090);
    } else if i == 1 {
        assert(18445821805675392312nat * 18444899583751176498nat / 18446744073709551616nat == 18443977407934598851);
        assert(242190299090nat * 18444899583751176498nat / 18446744073709551616nat == 242166082481);
    } else if i == 2 {
        assert(18443977407934598851nat * 18443055278223354163nat / 18446744073709551616nat == 18440289165698567480);
        assert(242166082481nat * 18443055278223354163nat / 18446744073709551616nat == 242117656528);
    } else if i == 3 {
        assert(18440289165698567480nat * 18439367220385604838nat / 18446744073709551616nat == 18432914893692463370);
        assert(242117656528nat * 18439367220385604838nat / 18446744073709551616nat == 242020833672);
    } else if i == 4 {
        assert(18432914893692463370nat * 18431993317065449818nat / 18446744073709551616nat == 18418175195415529481);
        assert(242020833672nat * 18431993317065449818nat / 18446744073709551616nat == 241827304103);
    } else if i == 5 {
        assert(18418175195415529481nat * 18417254355718160513nat / 18446744073709551616nat == 18388731148799035469);
        assert(241827304103nat * 18417254355718160513nat / 18446744073709551616nat == 241440709104);
    } else if i == 6 {
        assert(18388731148799035469nat * 18387811781193591352nat / 18446744073709551616nat == 18329984191681391134);
        assert(241440709104nat * 18387811781193591352nat / 18446744073709551616nat == 240669372198);
    } else if i == 7 {
        assert(18329984191681391134nat * 18329067761203520168nat / 18446744073709551616nat == 18213052719148788674);
        assert(240669372198nat * 18329067761203520168nat / 18446744073709551616nat == 239134083144);
    } else if i == 8 {
        assert(18213052719148788674nat * 18212142134806087855nat / 18446744073709551616nat == 17981422819357802655);
        assert(239134083144nat * 18212142134806087855nat / 18446744073709551616nat == 236092824516);
    } else if i == 9 {
        assert(17981422819357802655nat * 17980523815641551639nat / 18446744073709551616nat == 17526963021261575454);
        assert(236092824516nat * 17980523815641551639nat / 18446744073709551616nat == 230125849686);
    } else if i == 10 {
        assert(17526963021261575454nat * 17526086738831147014nat / 18446744073709551616nat == 16652210978343353599);
        assert(230125849686nat * 17526086738831147014nat / 18446744073709551616nat == 218640513812);
    } else if i == 11 {
        assert(16652210978343353599nat * 16651378430235024244nat / 18446744073709551616nat == 15031501797419866126);
        assert(218640513812nat * 16651378430235024244nat / 18446744073709551616nat == 197360895837);
    } else if i == 12 {
        assert(15031501797419866126nat * 15030750278693429945nat / 18446744073709551616nat == 12247947330323375224);
        assert(197360895837nat * 15030750278693429945nat / 18446744073709551616nat == 160813329889);
    } else if i == 13 {
        assert(12247947330323375224nat * 12247334978882834400nat / 18446744073709551616nat == 8131771826984472026);
        assert(160813329889nat * 12247334978882834400nat / 18446744073709551616nat == 106768691122);
    } else if i == 14 {
        assert(8131771826984472026nat * 8131365268884726201nat / 18446744073709551616nat == 3584502866425897901);
        assert(106768691122nat * 8131365268884726201nat / 18446744073709551616nat == 47063873349);
    } else if i == 15 {
        assert(3584502866425897901nat * 3584323654723342298nat / 18446744073709551616nat == 696492473859659074);
        assert(47063873349nat * 3584323654723342298nat / 18446744073709551616nat == 9144820021);
    } else if i == 16 {
        assert(696492473859659074nat * 696457651847595234nat / 18446744073709551616nat == 26296104664083085);
        assert(9144820021nat * 696457651847595234nat / 18446744073709551616nat == 345263091);
    } else if i == 17 {
        assert(26296104664083085nat * 26294789957452057nat / 18446744073709551616nat == 37483609360998);
        assert(345263091nat * 26294789957452057nat / 18446744073709551616nat == 492153);
    } else {
        assert(37483609360998nat * 37481735321082nat / 18446744073709551616nat == 76162531);
        assert(492153nat * 37481735321082nat / 18446744073709551616nat == 1);
    }
}

/// A factor below one lowers a ratio, and their product fits in 128 bits.
pub proof fn lemma_scaled_down(x: nat, c: nat)
    by (nonlinear_arith)
    requires
        c < 0x1_0000_0000_0000_0000,
    ensures
        x * c / 0x1_0000_0000_0000_0000 <= x,
        x <= 0x1_0000_0000_0000_0000 ==> x * c <= u128::MAX,
{
}

/// Rounding down keeps of a gap at least the gap scaled and rounded down.
proof fn lemma_scaled_gap(x: nat, y: nat, g: nat, c: nat)
    by (nonlinear_arith)
    requires
        x >= y + g,
    ensures
        x * c / 0x1_0000_0000_0000_0000 >= y * c / 0x1_0000_0000_0000_0000 + g * c
            / 0x1_0000_0000_0000_0000,
{
}

/// No factor raises a ratio.
proof fn lemma_fold_at_most(r: nat, rest: nat, i: nat)
    ensures
        fold_bits(r, rest, i) <= r,
    decreases 19 - i,
{
    if i < 19 {
        lemma_tables(i);
        lemma_scaled_down(r, tick_factor(i));
        if rest % 2 == 1 {
            lemma_fold_at_most(r * tick_factor(i) / (Q64 as nat), rest / 2, i + 1);
        } else {
            lemma_fold_at_most(r, rest / 2, i + 1);
        }
    }
}

/// Two ratios that are `gap_floor(i)` apart before bit `i` are still apart after
/// the last bit, whatever bits are set from `i` on.
proof fn lemma_gap_kept(x: nat, y: nat, rest: nat, i: nat)
    requires
        i <= 19,
        x >= y + gap_floor(i),
    ensures
        fold_bits(x, rest, i) > fold_bits(y, rest, i),
    decreases 19 - i,
{
    if i < 19 {
        lemma_tables(i);
        let c = tick_factor(i);
        if rest % 2 == 1 {
            lemma_scaled_gap(x, y, gap_floor(i), c);
            lemma_gap_kept(x * c / (Q64 as nat), y * c / (Q64 as nat), rest / 2, i + 1);
        } else {
            lemma_gap_kept(x, y, rest / 2, i + 1);
        }
    }
}

/// With the lowest `i` bits of a magnitude set and those of its successor clear,
/// the ratio of the successor ends lower. `rest` is the magnitude without those
/// bits, and `n` the number of bits that are left.
proof fn lemma_successor_lower(rest: nat, i: nat, n: nat)
    requires
        i + n == 19,
        rest + 1 < pow2(n),
    ensures
        fold_bits(ones_ratio(i), rest, i) > fold_bits(Q64 as nat, rest + 1, i),
    decreases n,
{
    lemma2_to64();
    if n > 0 {
        lemma_pow2_unfold(n);
        lemma_tables(i);
        let c = tick_factor(i);
        assert((Q64 as nat) * c / (Q64 as nat) == c) by (nonlinear_arith);
        if rest % 2 == 1 {
            assert((rest + 1) / 2 == rest / 2 + 1);
            lemma_successor_lower(rest / 2, i + 1, (n - 1) as nat);
        } else {
            assert((rest + 1) / 2 == rest / 2);
            lemma_gap_kept(ones_ratio(i), c, rest / 2, i + 1);
        }
    }
}

/// The ratio falls from each magnitude to the next.
proof fn lemma_ratio_step(m: nat)
    requires
        m + 1 < 524288,
    ensures
        ratio_at(m + 1) < ratio_at(m),
{
    lemma2_to64();
    assert(pow2(19) == 524288) by {
        lemma_pow2_unfold(19);
        lemma_pow2_unfold(18);
        lemma_pow2_unfold(17);
    }
    lemma_successor_lower(m, 0, 19);
}

/// The ratio falls as the magnitude grows.
proof fn lemma_ratio_decreasing(m1: nat, m2: nat)
    requires
        m1 < m2 < 524288,
    ensures
        ratio_at(m2) < ratio_at(m1),
    decreases m2 - m1,
{
    lemma_ratio_step((m2 - 1) as nat);
    if m1 + 1 < m2 {
        lemma_ratio_decreasing(m1, (m2 - 1) as nat);
    }
}

/// The ratio at magnitude zero, at magnitude one and at the end of the curve.
proof fn lemma_ratio_at_ends()
    ensures
        ratio_at(0) == Q64,
        ratio_at(1) == tick_factor(0),
        ratio_at(443636) == MIN_SQRT_PRICE,
{
    reveal_with_fuel(fold_bits, 20);
    assert(ratio_at(0) == Q64);
    assert((Q64 as nat) * tick_factor(0) / (Q64 as nat) == tick_factor(0));
    assert(ratio_at(1) == tick_factor(0));
    lemma_ratio_at_max();
}

/// The ratio at the end of the curve, factor by factor.
proof fn lemma_ratio_at_max()
    ensures
        ratio_at(443636) == 4295048016,
{
    assert(fold_bits(18446744073709551616, 443636, 0) == fold_bits(18446744073709551616, 221818, 1));
    assert(fold_bits(18446744073709551616, 221818, 1) == fold_bits(18446744073709551616, 110909, 2));
    assert(18446744073709551616nat * 18443055278223354163nat / 18446744073709551616nat == 18443055278223354163);
    assert(fold_bits(18446744073709551616, 110909, 2) == fold_bits(18443055278223354163, 55454, 3));
    assert(fold_bits(18443055278223354163, 55454, 3) == fold_bits(18443055278223354163, 27727, 4));
    assert(18443055278223354163nat * 18431993317065449818nat / 18446744073709551616nat == 18428307471288117481);
    assert(fold_bits(18443055278223354163, 27727, 4) == fold_bits(18428307471288117481, 13863, 5));
    assert(18428307471288117481nat * 18417254355718160513nat / 18446744073709551616nat == 18398847226801858503);
    assert(fold_bits(18428307471288117481, 13863, 5) == fold_bits(18398847226801858503, 6931, 6));
    assert(18398847226801858503nat * 18387811781193591352nat / 18446744073709551616nat == 18340067951587015308);
    assert(fold_bits(18398847226801858503, 6931, 6) == fold_bits(18340067951587015308, 3465, 7));
    assert(18340067951587015308nat * 18329067761203520168nat / 18446744073709551616nat == 18223072152272561887);
    assert(fold_bits(18340067951587015308, 3465, 7) == fold_bits(18223072152272561887, 1732, 8));
    assert(fold_bits(18223072152272561887, 1732, 8) == fold_bits(18223072152272561887, 866, 9));
    assert(fold_bits(18223072152272561887, 866, 9) == fold_bits(18223072152272561887, 433, 10));
    assert(18223072152272561887nat * 17526086738831147014nat / 18446744073709551616nat == 17313578044587773371);
    assert(fold_bits(18223072152272561887, 433, 10) == fold_bits(17313578044587773371, 216, 11));
    assert(fold_bits(17313578044587773371, 216, 11) == fold_bits(17313578044587773371, 108, 12));
    assert(fold_bits(17313578044587773371, 108, 12) == fold_bits(17313578044587773371, 54, 13));
    assert(fold_bits(17313578044587773371, 54, 13) == fold_bits(17313578044587773371, 27, 14));
    assert(17313578044587773371nat * 8131365268884726201nat / 18446744073709551616nat == 7631863196526440529);
    assert(fold_bits(17313578044587773371, 27, 14) == fold_bits(7631863196526440529, 13, 15));
    assert(7631863196526440529nat * 3584323654723342298nat / 18446744073709551616nat == 1482921196045045371);
    assert(fold_bits(7631863196526440529, 13, 15) == fold_bits(1482921196045045371, 6, 16));
    assert(fold_bits(1482921196045045371, 6, 16) == fold_bits(1482921196045045371, 3, 17));
    assert(1482921196045045371nat * 26294789957452057nat / 18446744073709551616nat == 2113820261052536);
    assert(fold_bits(1482921196045045371, 3, 17) == fold_bits(2113820261052536, 1, 18));
    assert(2113820261052536nat * 37481735321082nat / 18446744073709551616nat == 4295048016);
    assert(fold_bits(2113820261052536, 1, 18) == fold_bits(4295048016, 0, 19));
    assert(fold_bits(4295048016, 0, 19) == 4295048016);
}

/// The ratio of a magnitude of the curve lies between the lowest price of the
/// curve and one, and below the factor of the lowest bit from magnitude one on.
pub proof fn lemma_ratio_bounds(m: nat)
    requires
        m <= MAX_TICK,
    ensures
        MIN_SQRT_PRICE <= ratio_at(m) <= Q64,
        m >= 1 ==> ratio_at(m) <= tick_factor(0),
{
    lemma_ratio_at_ends();
    lemma_fold_at_most(Q64 as nat, m, 0);
    if m < 443636 {
        lemma_ratio_decreasing(m, 443636);
    }
    if m > 1 {
        lemma_ratio_decreasing(1, m);
    }
}

/// The reciprocal of a lower ratio is higher.
proof fn lemma_reciprocal_grows(a: nat, b: nat)
    by (nonlinear_arith)
    requires
        0 < a < b <= 0x1_0000_0000_0000_0000,
    ensures
        0xFFFF_FFFF_FFFF_FFFF_FFFF_FFFF_FFFF_FFFFnat / a > 0xFFFF_FFFF_FFFF_FFFF_FFFF_FFFF_FFFF_FFFFnat / b,
{
}

/// The reciprocals of the ratios of the curve lie above one and not above the
/// highest price of the curve.
proof fn lemma_reciprocal_bounds(a: nat)
    by (nonlinear_arith)
    requires
        4295048016 <= a <= 18445821805675392312,
    ensures
        18446744073709551616 < 0xFFFF_FFFF_FFFF_FFFF_FFFF_FFFF_FFFF_FFFFnat / a
            <= 79226673521066979257578248091,
{
}

/// The curve rises: a higher tick has a higher square-root price.
pub proof fn lemma_sqrt_price_increasing(t1: int, t2: int)
    requires
        tick_in_range(t1),
        tick_in_range(t2),
        t1 < t2,
    ensures
        sqrt_price_at_tick(t1) < sqrt_price_at_tick(t2),
{
    if t2 <= 0 {
        lemma_ratio_decreasing((-t2) as nat, (-t1) as nat);
    } else if t1 > 0 {
        lemma_ratio_bounds(t1 as nat);
        lemma_ratio_bounds(t2 as nat);
        lemma_ratio_decreasing(t1 as nat, t2 as nat);
        lemma_reciprocal_grows(ratio_at(t2 as nat), ratio_at(t1 as nat));
    } else {
        lemma_ratio_bounds((-t1) as nat);
        lemma_ratio_bounds(t2 as nat);
        lemma_reciprocal_bounds(ratio_at(t2 as nat));
    }
}

/// The prices of the curve lie between `MIN_SQRT_PRICE` and `MAX_SQRT_PRICE`, which
/// are the prices of its two ends, and the price at tick zero is one.
pub proof fn lemma_sqrt_price_bounds(tick: int)
    requires
        tick_in_range(tick),
    ensures
        MIN_SQRT_PRICE <= sqrt_price_at_tick(tick) <= MAX_SQRT_PRICE,
        sqrt_price_at_tick(MIN_TICK as int) == MIN_SQRT_PRICE,
        sqrt_price_at_tick(MAX_TICK as int) == MAX_SQRT_PRICE,
        sqrt_price_at_tick(0) == Q64,
{
    lemma_ratio_at_ends();
    assert(0xFFFF_FFFF_FFFF_FFFF_FFFF_FFFF_FFFF_FFFFnat / 4295048016nat
        == 79226673521066979257578248091);
    if tick > 0 {
        lemma_ratio_bounds(tick as nat);
        lemma_reciprocal_bounds(ratio_at(tick as nat));
    } else {
        lemma_ratio_bounds((-tick) as nat);
    }
}

/// A tick whose price is not above `price`, while the price of the next tick is,
/// is the tick of `price`.
pub proof fn lemma_tick_of_bracket(price: nat, tick: int)
    requires
        tick_in_range(tick),
        sqrt_price_at_tick(tick) <= price,
        tick < MAX_TICK ==> price < sqrt_price_at_tick(tick + 1),
    ensures
        tick_at_sqrt_price(price) == tick,
{
    lemma_scan_stops(price, tick, MAX_TICK as int);
}

/// The search for the tick of a price, begun at or above a tick that brackets the
/// price, ends at that tick.
proof fn lemma_scan_stops(price: nat, tick: int, hi: int)
    requires
        tick_in_range(tick),
        tick <= hi <= MAX_TICK,
        sqrt_price_at_tick(tick) <= price,
        tick < MAX_TICK ==> price < sqrt_price_at_tick(tick + 1),
    ensures
        tick_at_or_below(price, hi) == tick,
    decreases hi - tick,
{
    if hi > tick {
        if hi > tick + 1 {
            lemma_sqrt_price_increasing(tick + 1, hi);
        }
        lemma_scan_stops(price, tick, hi - 1);
    }
}

/// The search for the tick of a price ends at a tick that brackets the price.
proof fn lemma_scan_brackets(price: nat, hi: int)
    requires
        MIN_SQRT_PRICE <= price,
        MIN_TICK <= hi <= MAX_TICK,
    ensures
        MIN_TICK <= tick_at_or_below(price, hi) <= hi,
        sqrt_price_at_tick(tick_at_or_below(price, hi)) <= price,
        tick_at_or_below(price, hi) < hi ==> price < sqrt_price_at_tick(
            tick_at_or_below(price, hi) + 1,
        ),
    decreases hi - MIN_TICK,
{
    lemma_sqrt_price_bounds(hi);
    if hi > MIN_TICK && sqrt_price_at_tick(hi) > price {
        lemma_scan_brackets(price, hi - 1);
    }
}

/// The tick of a price of the curve lies on the curve, its price is not above the
/// given one, and the price of the next tick is.
pub proof fn lemma_tick_brackets_price(price: nat)
    requires
        MIN_SQRT_PRICE <= price <= MAX_SQRT_PRICE,
    ensures
        tick_in_range(tick_at_sqrt_price(price)),
        sqrt_price_at_tick(tick_at_sqrt_price(price)) <= price,
        tick_at_sqrt_price(price) < MAX_TICK ==> price < sqrt_price_at_tick(
            tick_at_sqrt_price(price) + 1,
        ),
        tick_at_sqrt_price(price) == MAX_TICK ==> price == sqrt_price_at_tick(MAX_TICK as int),
{
    lemma_scan_brackets(price, MAX_TICK as int);
    lemma_sqrt_price_bounds(MAX_TICK as int);
}

/// Round trip: the tick of the price of a tick is that tick.
pub proof fn lemma_tick_round_trip(tick: int)
    requires
        tick_in_range(tick),
    ensures
        tick_at_sqrt_price(sqrt_price_at_tick(tick)) == tick,
{
    if tick < MAX_TICK {
        lemma_sqrt_price_increasing(tick, tick + 1);
    }
    lemma_tick_of_bracket(sqrt_price_at_tick(tick), tick);
}

/// A factor keeps two ratios in the band, at the cost of two units of slack.
proof fn lemma_band_scaled(x: nat, y: nat, slack: nat, c: nat)
    requires
        in_band(x, y, slack),
        c < 0x1_0000_0000_0000_0000,
    ensures
        in_band(
            x * c / 0x1_0000_0000_0000_0000,
            y * c / 0x1_0000_0000_0000_0000,
            slack + 2,
        ),
{
    let xc = x * c;
    let yc = y * c;
    let sc = slack * c;
    assert(yc <= xc) by (nonlinear_arith)
        requires
            y <= x,
            xc == x * c,
            yc == y * c,
    ;
    assert((xc - yc) * 100_000_000 + sc * 100_000_000 >= 4995 * yc) by (nonlinear_arith)
        requires
            (x - y) * 100_000_000 + slack * 100_000_000 >= 4995 * y,
            xc == x * c,
            yc == y * c,
            sc == slack * c,
    ;
    assert((xc - yc) * 100_000_000 <= 5005 * yc + sc * 100_000_000) by (nonlinear_arith)
        requires
            (x - y) * 100_000_000 <= 5005 * y + slack * 100_000_000,
            xc == x * c,
            yc == y * c,
            sc == slack * c,
    ;
    assert(sc <= slack * 0x1_0000_0000_0000_0000) by (nonlinear_arith)
        requires
            sc == slack * c,
            c < 0x1_0000_0000_0000_0000,
    ;
}

/// Two ratios in the band before bit `i` are in the band after the last bit, with
/// two units of slack more for every bit.
proof fn lemma_band_kept(x: nat, y: nat, slack: nat, rest: nat, i: nat)
    requires
        i <= 19,
        in_band(x, y, slack),
    ensures
        in_band(fold_bits(x, rest, i), fold_bits(y, rest, i), slack + 2 * (19 - i) as nat),
    decreases 19 - i,
{
    if i < 19 {
        lemma_tables(i);
        let c = tick_factor(i);
        if rest % 2 == 1 {
            lemma_band_scaled(x, y, slack, c);
            lemma_band_kept(
                x * c / (Q64 as nat),
                y * c / (Q64 as nat),
                slack + 2,
                rest / 2,
                i + 1,
            );
        } else {
            lemma_band_kept(x, y, slack + 2, rest / 2, i + 1);
        }
    }
}

/// The ratio of a magnitude and that of its successor end in the band, along the
/// carry as in `lemma_successor_lower`.
proof fn lemma_successor_band(rest: nat, i: nat, n: nat)
    requires
        i + n == 19,
        rest + 1 < pow2(n),
    ensures
        in_band(fold_bits(ones_ratio(i), rest, i), fold_bits(Q64 as nat, rest + 1, i), 38),
    decreases n,
{
    lemma2_to64();
    if n > 0 {
        lemma_pow2_unfold(n);
        lemma_tables(i);
        let c = tick_factor(i);
        assert((Q64 as nat) * c / (Q64 as nat) == c) by (nonlinear_arith);
        if rest % 2 == 1 {
            assert((rest + 1) / 2 == rest / 2 + 1);
            lemma_successor_band(rest / 2, i + 1, (n - 1) as nat);
        } else {
            assert((rest + 1) / 2 == rest / 2);
            lemma_band_kept(ones_ratio(i), c, 0, rest / 2, i + 1);
        }
    }
}

/// From one magnitude to the next the ratio falls by between 4993 and 5007 parts
/// in 10^8.
proof fn lemma_ratio_step_band(m: nat)
    requires
        m < MAX_TICK,
    ensures
        ratio_at(m + 1) < ratio_at(m),
        ratio_at(m + 1) * 100_004_993 <= ratio_at(m) * 100_000_000,
        ratio_at(m) * 100_000_000 <= ratio_at(m + 1) * 100_005_007,
{
    lemma2_to64();
    assert(pow2(19) == 524288) by {
        lemma_pow2_unfold(19);
        lemma_pow2_unfold(18);
        lemma_pow2_unfold(17);
    }
    lemma_successor_band(m, 0, 19);
    lemma_ratio_bounds(m + 1);
    lemma_ratio_step(m);
}

/// A positive factor on both sides of an inequality can be dropped.
proof fn lemma_cancel(b: int, u: int, v: int)
    by (nonlinear_arith)
    requires
        0 < b,
        b * u < b * v,
    ensures
        u < v,
{
}

/// The reciprocals of two ratios in the band are in a band that is little wider.
proof fn lemma_reciprocal_step(a: nat, b: nat)
    requires
        0 < a < b <= 0x1_0000_0000_0000_0000,
        a * 100_004_993 <= b * 100_000_000,
        b * 100_000_000 <= a * 100_005_007,
    ensures
        (0xFFFF_FFFF_FFFF_FFFF_FFFF_FFFF_FFFF_FFFFnat / b) * 100_004_990 <= (
        0xFFFF_FFFF_FFFF_FFFF_FFFF_FFFF_FFFF_FFFFnat / a) * 100_000_000,
        (0xFFFF_FFFF_FFFF_FFFF_FFFF_FFFF_FFFF_FFFFnat / a) * 100_000_000 <= (
        0xFFFF_FFFF_FFFF_FFFF_FFFF_FFFF_FFFF_FFFFnat / b) * 100_005_010,
{
    let m = 0xFFFF_FFFF_FFFF_FFFF_FFFF_FFFF_FFFF_FFFFint;
    let pa = m / (a as int);
    let pb = m / (b as int);
    assert(0 <= pa && pa * a <= m < pa * a + a) by (nonlinear_arith)
        requires
            pa == m / (a as int),
            0 < a,
            0 <= m,
    ;
    assert(0 <= pb && pb * b <= m < pb * b + b) by (nonlinear_arith)
        requires
            pb == m / (b as int),
            0 < b,
            0 <= m,
    ;
    let paa = pa * a;
    let pab = pa * b;
    let pba = pb * a;
    let pbb = pb * b;
    assert(pab * 100_000_000 >= paa * 100_004_993) by (nonlinear_arith)
        requires
            a * 100_004_993 <= b * 100_000_000,
            0 <= pa,
            paa == pa * a,
            pab == pa * b,
    ;
    assert(pab * 100_000_000 <= paa * 100_005_007) by (nonlinear_arith)
        requires
            b * 100_000_000 <= a * 100_005_007,
            0 <= pa,
            paa == pa * a,
            pab == pa * b,
    ;
    assert(b * (pb * 100_004_990) == pbb * 100_004_990 && b * (pa * 100_000_000) == pab
        * 100_000_000 && b * (pb * 100_005_010) == pbb * 100_005_010) by (nonlinear_arith)
        requires
            pab == pa * b,
            pbb == pb * b,
    ;
    lemma_cancel(b as int, pb * 100_004_990, pa * 100_000_000);
    lemma_cancel(b as int, pa * 100_000_000, pb * 100_005_010);
}

/// Every tick raises the square-root price by the same step, the square root of
/// 1.0001: the price at the next tick is between 1.0000499 and 1.0000501 times the
/// price at this one.
pub proof fn lemma_sqrt_price_step(tick: int)
    requires
        MIN_TICK <= tick < MAX_TICK,
    ensures
        sqrt_price_at_tick(tick) * 10_000_499 <= sqrt_price_at_tick(tick + 1) * 10_000_000,
        sqrt_price_at_tick(tick + 1) * 10_000_000 <= sqrt_price_at_tick(tick) * 10_000_501,
{
    if tick < 0 {
        lemma_ratio_step_band((-tick - 1) as nat);
    } else if tick == 0 {
        lemma_ratio_at_ends();
        assert(0xFFFF_FFFF_FFFF_FFFF_FFFF_FFFF_FFFF_FFFFnat / 18445821805675392312nat
            == 18447666387855959850);
    } else {
        lemma_ratio_step_band(tick as nat);
        lemma_ratio_bounds(tick as nat);
        lemma_ratio_bounds((tick + 1) as nat);
        lemma_reciprocal_step(ratio_at((tick + 1) as nat), ratio_at(tick as nat));
    }
}

} // verus!
