//! Bitrates, and the order of their kilobit figures.
//!
//! A bitrate is kept as the JSON number the player response gives (bits
//! per second). The listing shows and orders it by its kilobit figure: the
//! number as a double, divided by 1000 in double arithmetic. That figure is
//! computed here exactly, with integers, as sign, significand and exponent.

use vstd::prelude::*;
use vstd::arithmetic::power2::{
    lemma2_to64, lemma_pow2_adds, lemma_pow2_pos, lemma_pow2_strictly_increases, pow2,
};
use crate::json::JsonNumber;
use crate::utils::{
    as_double, as_double_exec, bit_len, lemma_bit_len_bounds, round_half_even,
    round_half_even_exec,
};

verus! {

/// A number as a double: sign, and a magnitude `n · 2^e` with `n` a
/// whole number. Integers are rounded as `as f64` rounds them; a float is
/// decoded from its bits (subnormal when its exponent field is 0). JSON
/// numbers are finite: the bit patterns of infinities and NaN, which no
/// parser gives, are decoded as if their exponent field were an ordinary one.
pub open spec fn double_parts(n: JsonNumber) -> (bool, nat, int) {
    match n {
        JsonNumber::PosInt(u) => (false, as_double(u as nat), 0),
        JsonNumber::NegInt(i) => (i < 0, as_double(if i < 0 { (-i) as nat } else { i as nat }), 0),
        JsonNumber::Float(b) => {
            let field = (b / 0x10_0000_0000_0000) % 2048;
            let fraction = b % 0x10_0000_0000_0000;
            (
                b >= 0x8000_0000_0000_0000,
                if field == 0 { fraction as nat } else { (fraction + 0x10_0000_0000_0000) as nat },
                if field == 0 { -1074 } else { field - 1075 },
            )
        },
    }
}

/// The double nearest to `n · 2^e / 1000` (ties to the even significand), as
/// significand and exponent: the quotient is scaled to at least 54
/// significant bits, then rounded to 53, or to the subnormal grid 2^-1074.
pub open spec fn quotient_by_1000(n: nat, e: int) -> (nat, int) {
    let t: nat = if bit_len(n) >= 66 { 0 } else { (66 - bit_len(n)) as nat };
    let scaled = n * pow2(t);
    let e1 = e - t;
    let whole = scaled / 1000;
    let s0 = bit_len(whole) - 53;
    let s: int = if e1 + s0 < -1074 { -1074 - e1 } else { s0 };
    let m = round_half_even(scaled, 1000 * pow2(s as nat));
    if m == pow2(53) {
        (pow2(52), e1 + s + 1)
    } else {
        (m, e1 + s)
    }
}

/// The bits of a non-negative double's magnitude, from significand and
/// exponent; they order doubles as their values do.
pub open spec fn magnitude_bits(m: nat, e: int) -> int {
    if m >= pow2(52) {
        (e + 1075) * pow2(52) + (m - pow2(52))
    } else {
        m as int
    }
}

/// The middle of the key range, standing for zero.
pub open spec fn key_zero() -> int {
    0x10_0000_0000_0000_0000_0000_0000
}

/// A key that orders bitrates as `partial_cmp` orders their kilobit
/// figures, an absent bitrate counting as 0.
#[verifier::opaque]
pub open spec fn kbps_key(rate: Option<JsonNumber>) -> int {
    match rate {
        None => key_zero(),
        Some(n) => {
            let parts = double_parts(n);
            if parts.1 == 0 {
                key_zero()
            } else {
                let q = quotient_by_1000(parts.1, parts.2);
                let mag = magnitude_bits(q.0, q.1);
                if parts.0 {
                    key_zero() - mag
                } else {
                    key_zero() + mag
                }
            }
        },
    }
}

proof fn lemma_bit_len_below(b: nat, k: nat)
    requires
        b < pow2(k),
    ensures
        bit_len(b) <= k,
{
    if b > 0 {
        lemma_bit_len_bounds(b);
        if bit_len(b) > k {
            if bit_len(b) - 1 > k {
                lemma_pow2_strictly_increases(k, (bit_len(b) - 1) as nat);
            }
        }
    } else {
        assert(bit_len(0) == 0);
    }
}

/// `2^e` for `e < 128`.
fn pow2_wide(e: u64) -> (r: u128)
    requires
        e <= 100,
    ensures
        r as nat == pow2(e as nat),
{
    proof {
        lemma2_to64();
    }
    let mut d: u128 = 1;
    let mut k: u64 = 0;
    while k < e
        invariant
            k <= e <= 100,
            d as nat == pow2(k as nat),
        decreases e - k,
    {
        proof {
            lemma_pow2_adds(k as nat, 1);
            lemma2_to64();
            lemma_pow2_adds((k + 1) as nat, (127 - (k + 1)) as nat);
            lemma_pow2_pos((127 - (k + 1)) as nat);
            lemma_pow2_adds(64, 63);
            assert(pow2(127) == 0x8000_0000_0000_0000_0000_0000_0000_0000) by {
                lemma2_to64_rest_63();
            }
            assert(pow2((k + 1) as nat) <= pow2(127)) by (nonlinear_arith)
                requires
                    pow2(127) == pow2((k + 1) as nat) * pow2((127 - (k + 1)) as nat),
                    pow2((127 - (k + 1)) as nat) > 0,
            ;
        }
        d = d * 2;
        k = k + 1;
    }
    d
}

proof fn lemma2_to64_rest_63()
    ensures
        pow2(63) == 0x8000_0000_0000_0000,
        pow2(64) == 0x1_0000_0000_0000_0000,
{
    vstd::arithmetic::power2::lemma2_to64_rest();
    lemma2_to64();
}

/// The number of binary digits of `b`.
fn bit_len_wide(b: u128) -> (r: u64)
    ensures
        r as nat == bit_len(b as nat),
{
    proof {
        lemma2_to64_rest_63();
        lemma_pow2_adds(64, 64);
        lemma_bit_len_below(b as nat, 128);
    }
    let mut t = b;
    let mut n: u64 = 0;
    while t > 0
        invariant
            n + bit_len(t as nat) == bit_len(b as nat),
            bit_len(b as nat) <= 128,
        decreases t,
    {
        t = t / 2;
        n = n + 1;
    }
    n
}

/// The double nearest to `n · 2^e / 1000` (see [`quotient_by_1000`]).
fn quotient_by_1000_exec(n: u128, e: i64) -> (r: (u128, i64))
    requires
        0 < n <= 0x1_0000_0000_0000_0800,
        -1074 <= e <= 972,
    ensures
        r.0 as nat == quotient_by_1000(n as nat, e as int).0,
        r.1 as int == quotient_by_1000(n as nat, e as int).1,
        r.0 < 0x10_0000_0000_0000_0000,
        -1074 <= r.1 <= 1000,
{
    proof {
        lemma2_to64();
        lemma2_to64_rest_63();
        lemma_pow2_adds(64, 1);
        lemma_pow2_adds(64, 2);
        lemma_bit_len_below(n as nat, 65);
        lemma_bit_len_bounds(n as nat);
    }
    let l = bit_len_wide(n);
    let t = 66 - l;
    let p = pow2_wide(t);
    proof {
        lemma_pow2_pos(t as nat);
        vstd::arithmetic::power2::lemma2_to64_rest();
        lemma_pow2_adds(l as nat, t as nat);
        lemma_pow2_adds((l - 1) as nat, t as nat);
        lemma_pow2_adds(55, 10);
        let nn = n as int;
        let pp = p as int;
        assert(nn * pp < pow2(66)) by (nonlinear_arith)
            requires
                nn < pow2(l as nat),
                pp == pow2(t as nat),
                pp > 0,
                pow2(l as nat) * pow2(t as nat) == pow2(66),
        ;
        assert(nn * pp >= pow2(65)) by (nonlinear_arith)
            requires
                nn >= pow2((l - 1) as nat),
                pp == pow2(t as nat),
                pp > 0,
                pow2((l - 1) as nat) * pow2(t as nat) == pow2(65),
        ;
    }
    let scaled = n * p;
    let e1: i64 = e - t as i64;
    let whole = scaled / 1000;
    proof {
        assert(pow2(65) / 1000 >= pow2(55));
        assert(whole >= pow2(55)) by (nonlinear_arith)
            requires
                scaled >= pow2(65),
                whole == scaled / 1000,
                pow2(65) / 1000 >= pow2(55),
        ;
        lemma_bit_len_below(whole as nat, 66);
        lemma_bit_len_bounds(whole as nat);
        if bit_len(whole as nat) <= 55 {
            if bit_len(whole as nat) < 55 {
                lemma_pow2_strictly_increases(bit_len(whole as nat), 55);
            }
        }
    }
    let bl = bit_len_wide(whole);
    let s0: i64 = bl as i64 - 53;
    let s: i64 = if e1 + s0 < -1074 {
        -1074 - e1
    } else {
        s0
    };
    let ps = pow2_wide(s as u64);
    let d = 1000 * ps;
    proof {
        lemma_pow2_pos(s as nat);
    }
    let m = round_half_even_exec(scaled, d);
    proof {
        assert(m <= scaled) by (nonlinear_arith)
            requires
                m <= scaled / d + 1,
                d >= 1000,
                scaled >= 1000,
        ;
    }
    if m == 0x20_0000_0000_0000 {
        (0x10_0000_0000_0000, e1 + s + 1)
    } else {
        (m, e1 + s)
    }
}

/// A key that orders bitrates as `partial_cmp` orders their kilobit
/// figures (see [`kbps_key`]).
pub fn kbps_order_key(rate: Option<JsonNumber>) -> (r: u128)
    ensures
        r as int == kbps_key(rate),
{
    reveal(kbps_key);
    let zero: u128 = 0x10_0000_0000_0000_0000_0000_0000;
    let (neg, n, e): (bool, u128, i64) = match rate {
        None => return zero,
        Some(JsonNumber::PosInt(u)) => (false, as_double_exec(u), 0),
        Some(JsonNumber::NegInt(i)) => {
            let mag: u64 = if i < 0 {
                (0i128 - i as i128) as u64
            } else {
                i as u64
            };
            (i < 0, as_double_exec(mag), 0)
        },
        Some(JsonNumber::Float(b)) => {
            let field = (b / 0x10_0000_0000_0000) % 2048;
            let fraction = b % 0x10_0000_0000_0000;
            if field == 0 {
                (b >= 0x8000_0000_0000_0000, fraction as u128, -1074)
            } else {
                (
                    b >= 0x8000_0000_0000_0000,
                    (fraction + 0x10_0000_0000_0000) as u128,
                    field as i64 - 1075,
                )
            }
        },
    };
    if n == 0 {
        return zero;
    }
    let (m, ex) = quotient_by_1000_exec(n, e);
    proof {
        lemma2_to64();
        vstd::arithmetic::power2::lemma2_to64_rest();
    }
    let mag: u128 = if m >= 0x10_0000_0000_0000 {
        (ex + 1075) as u128 * 0x10_0000_0000_0000 + (m - 0x10_0000_0000_0000)
    } else {
        m
    };
    if neg {
        zero - mag
    } else {
        zero + mag
    }
}

} // verus!
