//! The browser identity that requests are made under.

use rand::Rng;
use vstd::prelude::*;
use crate::text::{append, chars_of, decimal, decimal_u64, string_of};

verus! {

/// The lowest Chrome major version to pose as.
pub const CHROME_MAJOR_MIN: u32 = 137;

/// The highest Chrome major version to pose as.
pub const CHROME_MAJOR_MAX: u32 = 143;

/// The user agent of desktop Chrome with the given major version on
/// 64-bit Windows 10.
pub open spec fn user_agent_spec(major: u32) -> Seq<char> {
    "Mozilla/5.0 (Windows NT 10.0; Win64; x64) AppleWebKit/537.36 (KHTML, like Gecko) Chrome/"@
        + decimal(major as nat) + ".0.0.0 Safari/537.36"@
}

/// The user agent of desktop Chrome with the given major version (see
/// [`user_agent_spec`]).
pub fn chrome_user_agent(major: u32) -> (r: String)
    ensures
        r@ == user_agent_spec(major),
{
    let mut s = chars_of(
        "Mozilla/5.0 (Windows NT 10.0; Win64; x64) AppleWebKit/537.36 (KHTML, like Gecko) Chrome/",
    );
    let digits = decimal_u64(major as u64);
    append(&mut s, &digits);
    let tail = chars_of(".0.0.0 Safari/537.36");
    append(&mut s, &tail);
    string_of(s)
}

/// A number drawn uniformly from `low..=high` with `rand`'s thread-local
/// generator (`Rng::gen_range`).
///
/// Claimed of the crate: the number lies in the range. Which one comes out
/// is chance, and is not stated.
#[verifier::external_body]
fn random_in(low: u32, high: u32) -> (r: u32)
    requires
        low <= high,
    ensures
        low <= r <= high,
{
    rand::thread_rng().gen_range(low..=high)
}

/// The user agent of a Chrome version drawn at random from
/// `CHROME_MAJOR_MIN..=CHROME_MAJOR_MAX`.
pub fn random_user_agent() -> (r: String)
    ensures
        exists|major: u32|
            CHROME_MAJOR_MIN <= major <= CHROME_MAJOR_MAX && r@ == user_agent_spec(major),
{
    let major = random_in(CHROME_MAJOR_MIN, CHROME_MAJOR_MAX);
    chrome_user_agent(major)
}

} // verus!
