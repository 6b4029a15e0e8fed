//! Presentation helpers for the format listing.

use colored::Colorize;
use vstd::prelude::*;
use vstd::arithmetic::power2::{
    lemma2_to64, lemma2_to64_rest, lemma_pow2_pos, lemma_pow2_strictly_increases, lemma_pow2_unfold, pow2,
};
use crate::text::{append, chars_of, contains, contains_lit, decimal, decimal_u64, digit_char, string_of};

verus! {

// ---------------------------------------------------------------------
// Sizes
// ---------------------------------------------------------------------

/// The number of binary digits of `b`.
pub open spec fn bit_len(b: nat) -> nat
    decreases b,
{
    if b == 0 {
        0
    } else {
        1 + bit_len(b / 2)
    }
}

/// `n / d` rounded to the nearest integer, ties to the even one.
pub open spec fn round_half_even(n: nat, d: nat) -> nat {
    let q = n / d;
    let r = n % d;
    if 2 * r > d || (2 * r == d && q % 2 == 1) {
        q + 1
    } else {
        q
    }
}

/// The value of `b` converted to an `f64`: `b` itself below 2^53, else `b`
/// rounded to 53 significant bits, ties to even.
pub open spec fn as_double(b: nat) -> nat {
    if b < 0x20_0000_0000_0000 {
        b
    } else {
        let e = (bit_len(b) - 53) as nat;
        round_half_even(b, pow2(e)) * pow2(e)
    }
}

/// A number of hundredths written with two decimals, as `{:.2}` writes it.
pub open spec fn two_decimals(h: nat) -> Seq<char> {
    decimal(h / 100) + seq!['.', digit_char((h % 100) / 10), digit_char(h % 10)]
}

/// `v / 2^shift` with two decimals, rounded half to even.
pub open spec fn scaled(v: nat, shift: nat) -> Seq<char> {
    two_decimals(round_half_even(v * 100, pow2(shift)))
}

/// A size in bytes as the listing shows it: `~` and seven spaces when
/// unknown, whole bytes below 1 KiB, else KiB, MiB or GiB with two
/// decimals (the byte count taken as a double, then divided exactly).
pub open spec fn format_size_spec(bytes: Option<u64>) -> Seq<char> {
    match bytes {
        None => "~       "@,
        Some(b) => {
            let v = as_double(b as nat);
            if v >= 1073741824 {
                scaled(v, 30) + "GiB"@
            } else if v >= 1048576 {
                scaled(v, 20) + "MiB"@
            } else if v >= 1024 {
                scaled(v, 10) + "KiB"@
            } else {
                decimal(b as nat) + "B"@
            }
        },
    }
}

pub(crate) proof fn lemma_bit_len_bounds(b: nat)
    requires
        b > 0,
    ensures
        bit_len(b) >= 1,
        pow2((bit_len(b) - 1) as nat) <= b < pow2(bit_len(b)),
    decreases b,
{
    lemma2_to64();
    assert(bit_len(0) == 0);
    if b == 1 {
        assert(bit_len(1) == 1 + bit_len(0));
    } else {
        lemma_bit_len_bounds(b / 2);
        let l = bit_len(b / 2);
        assert(bit_len(b) == l + 1);
        lemma_pow2_unfold(l + 1);
        lemma_pow2_unfold(l);
        assert(pow2(l) == 2 * pow2((l - 1) as nat));
        assert(pow2((l - 1) as nat) <= b / 2);
        assert(b / 2 < pow2(l));
    }
}

proof fn lemma_as_double_range(b: nat)
    requires
        0x20_0000_0000_0000 <= b < 0x1_0000_0000_0000_0000,
    ensures
        54 <= bit_len(b) <= 64,
        pow2((bit_len(b) - 53) as nat) <= 2048,
        pow2((bit_len(b) - 53) as nat) <= b,
{
    lemma2_to64();
    lemma_bit_len_bounds(b);
    let l = bit_len(b);
    lemma2_to64_rest();
    if l > 65 {
        lemma_pow2_strictly_increases(64, (l - 1) as nat);
    }
    if l < 53 {
        lemma_pow2_strictly_increases(l, 53);
    }
    assert(54 <= l <= 64);
    let e = (l - 53) as nat;
    if e < 11 {
        lemma_pow2_strictly_increases(e, 11);
    }
    lemma_pow2_strictly_increases(e, (l - 1) as nat);
}

proof fn lemma_bit_len_u64(b: nat)
    requires
        b < 0x1_0000_0000_0000_0000,
    ensures
        bit_len(b) <= 64,
{
    lemma2_to64();
    if b > 0 {
        lemma_bit_len_bounds(b);
        if bit_len(b) > 64 {
            lemma_pow2_strictly_increases(64, (bit_len(b) - 1) as nat);
        }
    }
}

fn bit_len_exec(b: u64) -> (r: u64)
    ensures
        r as nat == bit_len(b as nat),
{
    proof {
        lemma_bit_len_u64(b as nat);
    }
    let mut t = b;
    let mut n: u64 = 0;
    while t > 0
        invariant
            n + bit_len(t as nat) == bit_len(b as nat),
            bit_len(b as nat) <= 64,
        decreases t,
    {
        t = t / 2;
        n = n + 1;
    }
    n
}

/// `2^e`.
fn pow2_exec(e: u64) -> (r: u128)
    requires
        e <= 64,
    ensures
        r as nat == pow2(e as nat),
{
    proof {
        lemma2_to64();
    }
    let mut d: u128 = 1;
    let mut k: u64 = 0;
    while k < e
        invariant
            k <= e <= 64,
            d as nat == pow2(k as nat),
        decreases e - k,
    {
        proof {
            lemma2_to64();
            lemma_pow2_unfold((k + 1) as nat);
            if k + 1 < 64 {
                lemma_pow2_strictly_increases((k + 1) as nat, 64);
            }
        }
        d = d * 2;
        k = k + 1;
    }
    d
}

/// `n / d` rounded half to even.
pub(crate) fn round_half_even_exec(n: u128, d: u128) -> (r: u128)
    requires
        d > 0,
        n < 0x1_0000_0000_0000_0000_0000_0000,
    ensures
        r as nat == round_half_even(n as nat, d as nat),
        r <= n / d + 1,
{
    let q = n / d;
    let rem = n % d;
    if rem > d - rem || (rem == d - rem && q % 2 == 1) {
        q + 1
    } else {
        q
    }
}

/// `b` converted to a double, as an integer (see [`as_double`]).
pub(crate) fn as_double_exec(b: u64) -> (r: u128)
    ensures
        r as nat == as_double(b as nat),
        r <= 0x1_0000_0000_0000_0800,
{
    if b < 0x20_0000_0000_0000 {
        return b as u128;
    }
    proof {
        lemma_as_double_range(b as nat);
    }
    let e = bit_len_exec(b) - 53;
    let d = pow2_exec(e);
    proof {
        lemma_pow2_pos(e as nat);
    }
    let q = round_half_even_exec(b as u128, d);
    proof {
        let bb = b as int;
        let dd = d as int;
        assert(q as int * dd <= bb + dd) by (nonlinear_arith)
            requires
                q as int <= bb / dd + 1,
                dd > 0,
                bb >= 0,
        {
            assert((bb / dd) * dd <= bb);
        }
    }
    q * d
}

/// `v / 2^shift` with two decimals (see [`scaled`]).
fn scaled_exec(v: u128, shift: u64) -> (r: Vec<char>)
    requires
        v <= 0x1_0000_0000_0000_0800,
        10 <= shift <= 30,
    ensures
        r@ == scaled(v as nat, shift as nat),
{
    let d = pow2_exec(shift);
    proof {
        lemma2_to64();
        if shift > 10 {
            lemma_pow2_strictly_increases(10, shift as nat);
        }
    }
    let n = v * 100;
    let h = round_half_even_exec(n, d);
    proof {
        let nn = n as int;
        let dd = d as int;
        assert(nn / dd <= nn / 1024) by (nonlinear_arith)
            requires
                dd >= 1024,
                nn >= 0,
        ;
    }
    let whole = (h / 100) as u64;
    let mut r = decimal_u64(whole);
    r.push('.');
    let tens = (((h % 100) / 10) as u8 + 48u8) as char;
    let units = ((h % 10) as u8 + 48u8) as char;
    r.push(tens);
    r.push(units);
    r
}

/// A size in bytes as the listing shows it (see [`format_size_spec`]).
pub fn format_size(bytes: Option<u64>) -> (r: String)
    ensures
        r@ == format_size_spec(bytes),
{
    match bytes {
        None => string_of(chars_of("~       ")),
        Some(b) => {
            let v = as_double_exec(b);
            let mut text = if v >= 1073741824 {
                let mut t = scaled_exec(v, 30);
                let unit = chars_of("GiB");
                append(&mut t, &unit);
                t
            } else if v >= 1048576 {
                let mut t = scaled_exec(v, 20);
                let unit = chars_of("MiB");
                append(&mut t, &unit);
                t
            } else if v >= 1024 {
                let mut t = scaled_exec(v, 10);
                let unit = chars_of("KiB");
                append(&mut t, &unit);
                t
            } else {
                let mut t = decimal_u64(b);
                let unit = chars_of("B");
                append(&mut t, &unit);
                t
            };
            string_of(text)
        },
    }
}

// ---------------------------------------------------------------------
// Dimming
// ---------------------------------------------------------------------

/// The escape sequence that turns on bright black.
pub open spec fn dim_on() -> Seq<char> {
    seq!['\x1B', '[', '9', '0', 'm']
}

/// The escape sequence that resets all styling.
pub open spec fn style_reset() -> Seq<char> {
    seq!['\x1B', '[', '0', 'm']
}

/// `s` with bright black switched on again after every reset inside it.
pub open spec fn redimmed(s: Seq<char>) -> Seq<char>
    decreases s.len(),
{
    if s.len() == 0 {
        Seq::<char>::empty()
    } else if s.len() >= 4 && s.take(4) == style_reset() {
        style_reset() + dim_on() + redimmed(s.skip(4))
    } else {
        seq![s[0]] + redimmed(s.drop_first())
    }
}

/// `s` shown in bright black on a terminal.
pub open spec fn dimmed(s: Seq<char>) -> Seq<char> {
    dim_on() + redimmed(s) + style_reset()
}

/// `text.bright_black().to_string()` with the `colored` crate.
///
/// Claimed of the crate: when colouring is off the text comes back as it
/// is, and when it is on it comes back as [`dimmed`] says. Whether colouring
/// is on depends on the environment and the terminal, and is not stated;
/// the claim assumes that the setting does not change during the call.
#[verifier::external_body]
fn bright_black(text: &str) -> (r: String)
    ensures
        r@ == text@ || r@ == dimmed(text@),
{
    text.bright_black().to_string()
}

/// Dims a listing cell that says `only` (as in `audio only`); any other
/// cell is kept as it is.
pub fn dim_if_only(text: &str) -> (r: String)
    ensures
        !contains(text@, "only"@) ==> r@ == text@,
        contains(text@, "only"@) ==> r@ == text@ || r@ == dimmed(text@),
{
    let t = chars_of(text);
    if contains_lit(&t, "only") {
        bright_black(text)
    } else {
        string_of(t)
    }
}

} // verus!
