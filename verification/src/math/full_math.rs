use vstd::arithmetic::div_mod::{
    lemma_div_multiples_vanish_quotient, lemma_fundamental_div_mod,
    lemma_fundamental_div_mod_converse, lemma_truncate_middle,
};
use vstd::arithmetic::power2::{lemma2_to64, lemma_pow2_adds, lemma_pow2_pos, lemma_pow2_unfold, pow2};
use vstd::prelude::*;

verus! {

/// One in the 64.64 fixed-point format: 2^64.
pub const Q64: u128 = 0x1_0000_0000_0000_0000;

const HALF_RANGE: u128 = 0x8000_0000_0000_0000_0000_0000_0000_0000;

/// 2^128, one more than the largest 128-bit number.
spec fn two_pow_128() -> int {
    0x1_0000_0000_0000_0000_0000_0000_0000_0000int
}

/// The product of two 64-bit numbers fits in 128 bits.
proof fn lemma_limb_product(x: int, y: int)
    by (nonlinear_arith)
    requires
        0 <= x < 0x1_0000_0000_0000_0000,
        0 <= y < 0x1_0000_0000_0000_0000,
    ensures
        0 <= x * y <= 0xFFFF_FFFF_FFFF_FFFE_0000_0000_0000_0001,
{
}

/// The product of two numbers from the products of their halves.
proof fn lemma_split_product(a: int, a1: int, a0: int, b: int, b1: int, b0: int, q: int)
    requires
        a == a1 * q + a0,
        b == b1 * q + b0,
    ensures
        a * b == (a1 * b1) * (q * q) + (a1 * b0 + a0 * b1) * q + a0 * b0,
{
    let x = a1 * q;
    let y = b1 * q;
    assert((x + a0) * (y + b0) == x * y + x * b0 + a0 * y + a0 * b0) by (nonlinear_arith);
    assert(x * y == (a1 * b1) * (q * q)) by (nonlinear_arith)
        requires
            x == a1 * q,
            y == b1 * q,
    ;
    assert(x * b0 == (a1 * b0) * q) by (nonlinear_arith)
        requires
            x == a1 * q,
    ;
    assert(a0 * y == (a0 * b1) * q) by (nonlinear_arith)
        requires
            y == b1 * q,
    ;
    assert((a1 * b0 + a0 * b1) * q == (a1 * b0) * q + (a0 * b1) * q) by (nonlinear_arith);
}

/// The product of two numbers below `m` is below the square of `m`.
proof fn lemma_product_below_square(a: int, b: int, m: int)
    by (nonlinear_arith)
    requires
        0 <= a < m,
        0 <= b < m,
    ensures
        0 <= a * b < m * m,
{
}

/// The full 256-bit product of two 128-bit numbers, as its high and low words.
fn mul_wide(a: u128, b: u128) -> (r: (u128, u128))
    ensures
        r.0 * two_pow_128() + r.1 == a * b,
{
    let a1 = a / Q64;
    let a0 = a % Q64;
    let b1 = b / Q64;
    let b0 = b % Q64;
    proof {
        lemma_limb_product(a0 as int, b0 as int);
        lemma_limb_product(a0 as int, b1 as int);
        lemma_limb_product(a1 as int, b0 as int);
        lemma_limb_product(a1 as int, b1 as int);
    }
    let p00 = a0 * b0;
    let p01 = a0 * b1;
    let p10 = a1 * b0;
    let p11 = a1 * b1;
    let mid = p00 / Q64 + p01 % Q64 + p10 % Q64;
    let low = p00 % Q64 + (mid % Q64) * Q64;
    proof {
        let q = Q64 as int;
        lemma_split_product(a as int, a1 as int, a0 as int, b as int, b1 as int, b0 as int, q);
        assert(q * q == two_pow_128());
        lemma_product_below_square(a as int, b as int, two_pow_128());
        let high = p11 + p01 / Q64 + p10 / Q64 + mid / Q64;
        assert(a * b == high * two_pow_128() + low);
        assert(high < two_pow_128()) by (nonlinear_arith)
            requires
                a * b == high * two_pow_128() + low,
                a * b < two_pow_128() * two_pow_128(),
                0 <= low,
        ;
    }
    let high = p11 + p01 / Q64 + p10 / Q64 + mid / Q64;
    (high, low)
}

/// One step of the long division: the dividend takes the bit `top`, and the
/// quotient takes a clear or a set bit.
proof fn lemma_division_step(hi: int, p: int, c: int, q: int, d: int, rem: int, top: int)
    by (nonlinear_arith)
    requires
        hi * p + c == q * d + rem,
    ensures
        hi * (2 * p) + (2 * c + top) == (2 * q) * d + (2 * rem + top),
        hi * (2 * p) + (2 * c + top) == (2 * q + 1) * d + (2 * rem + top - d),
{
}

/// The top bit of a number `t * p` below `2 * s * p`, and what is left below it.
proof fn lemma_top_bit(t: int, s: int, p: int)
    requires
        0 <= t < 2 * s,
        0 < s,
        0 < p,
    ensures
        (t * p) / (s * p) == (if t >= s { 1int } else { 0int }),
        (t * p) % (s * p) == (if t >= s { t - s } else { t }) * p,
{
    lemma_div_multiples_vanish_quotient(p, t, s);
    assert(t * p == p * t) by (nonlinear_arith);
    assert(s * p == p * s) by (nonlinear_arith);
    lemma_truncate_middle(t, p, s);
    let r = if t >= s { t - s } else { t };
    let k = if t >= s { 1int } else { 0int };
    lemma_fundamental_div_mod_converse(t, s, k, r);
    assert(p * r == r * p) by (nonlinear_arith);
}

/// The quotient of the 256-bit number `hi * 2^128 + lo` by `d`, which fits in 128
/// bits because `hi < d`.
///
/// This is long division, one bit of `lo` at a time from the top. After `i` bits,
/// `c` is the number that those bits spell, `t` is what the other bits spell, and
/// `quot` and `rem` are the quotient and the remainder of `hi * 2^i + c` by `d`.
fn div_wide(hi: u128, lo: u128, d: u128) -> (r: u128)
    requires
        hi < d,
    ensures
        r == (hi * two_pow_128() + lo) / (d as int),
{
    let mut rem: u128 = hi;
    let mut quot: u128 = 0;
    let mut low: u128 = lo;
    let mut i: u32 = 0;
    let ghost mut p: int = 1;
    let ghost mut s: int = two_pow_128();
    let ghost mut c: int = 0;
    let ghost mut t: int = lo as int;
    proof {
        lemma2_to64();
        lemma_pow2_adds(64, 64);
        assert(pow2(128) == two_pow_128());
        assert(hi * 1 + 0 == 0 * d + hi) by (nonlinear_arith);
    }
    while i < 128
        invariant
            i <= 128,
            p == pow2(i as nat),
            s == pow2((128 - i) as nat),
            p * s == two_pow_128(),
            lo == c * s + t,
            0 <= t < s,
            0 <= c < p,
            low == t * p,
            hi * p + c == quot * d + rem,
            rem < d,
            quot < p,
        decreases 128 - i,
    {
        proof {
            lemma_pow2_unfold((128 - i) as nat);
            lemma_pow2_unfold((i + 1) as nat);
            lemma_pow2_pos((127 - i) as nat);
            lemma_pow2_pos(i as nat);
        }
        let ghost s2 = s / 2;
        assert(s == 2 * s2);
        assert(s2 * p == HALF_RANGE) by (nonlinear_arith)
            requires
                p * s == two_pow_128(),
                s == 2 * s2,
        ;
        proof {
            lemma_top_bit(t, s2, p);
        }
        let top = low / HALF_RANGE;
        let rest = low % HALF_RANGE;
        let ghost t2 = if t >= s2 { t - s2 } else { t };
        assert(rest == t2 * p);
        assert(rest * 2 == t2 * (2 * p)) by (nonlinear_arith)
            requires
                rest == t2 * p,
        ;
        assert(p <= HALF_RANGE) by (nonlinear_arith)
            requires
                s2 * p == HALF_RANGE,
                s2 >= 1,
                p >= 1,
        ;
        proof {
            lemma_division_step(hi as int, p, c, quot as int, d as int, rem as int, top as int);
            assert(c * s == (2 * c) * s2) by (nonlinear_arith)
                requires
                    s == 2 * s2,
            ;
            assert((2 * c + top) * s2 == (2 * c) * s2 + top * s2) by (nonlinear_arith);
            assert((2 * p) * s2 == p * s) by (nonlinear_arith)
                requires
                    s == 2 * s2,
            ;
        }
        low = rest * 2;
        let gap = d - rem - top;
        if rem >= gap {
            rem = rem - gap;
            quot = quot * 2 + 1;
        } else {
            rem = rem + rem + top;
            quot = quot * 2;
        }
        i = i + 1;
        proof {
            c = 2 * c + top;
            t = t2;
            p = 2 * p;
            s = s2;
        }
    }
    proof {
        assert(s == 1);
        assert(c * 1 == c) by (nonlinear_arith);
        assert(hi * two_pow_128() + lo == quot * d + rem);
        lemma_fundamental_div_mod_converse(hi * two_pow_128() + lo, d as int, quot as int, rem as int);
    }
    quot
}

/// A high word that is not below the divisor makes a quotient of at least `m`.
proof fn lemma_quotient_too_large(x: int, hi: int, lo: int, d: int, m: int)
    requires
        x == hi * m + lo,
        0 <= lo,
        0 < d <= hi,
        0 < m,
    ensures
        x / d >= m,
{
    lemma_fundamental_div_mod(x, d);
    let q = x / d;
    let r = x % d;
    assert(q >= m) by (nonlinear_arith)
        requires
            x == d * q + r,
            0 <= r < d,
            x == hi * m + lo,
            0 <= lo,
            0 < d <= hi,
            0 < m,
    ;
}

/// What `mul_div` answers: the quotient `a * b / d` where `d` is not zero and the
/// quotient fits in 128 bits, and nothing otherwise.
pub open spec fn mul_div_spec(a: nat, b: nat, d: nat) -> Option<u128> {
    if d == 0 || a * b / d > u128::MAX {
        None
    } else {
        Some((a * b / d) as u128)
    }
}

/// `a * b / d`, rounded down, with the product taken in full width: the call
/// answers whenever the quotient itself fits in 128 bits.
pub fn mul_div(a: u128, b: u128, d: u128) -> (r: Option<u128>)
    ensures
        r == mul_div_spec(a as nat, b as nat, d as nat),
{
    if d == 0 {
        return None;
    }
    let (hi, lo) = mul_wide(a, b);
    if hi >= d {
        proof {
            lemma_quotient_too_large(a * b, hi as int, lo as int, d as int, two_pow_128());
        }
        return None;
    }
    let q = div_wide(hi, lo, d);
    Some(q)
}

} // verus!
