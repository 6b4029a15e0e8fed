//! Command-line options, and the small decisions the command makes on them.

use vstd::prelude::*;
use crate::text::{
    chars_of, is_whitespace, lemma_split_nonempty, slice, split, split_exec, starts_with,
    starts_with_lit, string_of, trim_start,
};

verus! {

/// The options of the command.
pub struct Cli {
    /// URL to download or extract.
    pub url: String,
    /// Format selection (e.g. `bestvideo+bestaudio/best`, `137+140`).
    pub format: String,
    /// List formats.
    pub list_formats: bool,
    /// Output filename template.
    pub output: Option<String>,
    /// Path to a `cookies.txt` file.
    pub cookies: Option<String>,
    /// Print debugging information.
    pub verbose: bool,
}

/// The format selection used when none is given.
pub open spec fn default_format() -> Seq<char> {
    "bestvideo+bestaudio/best"@
}

impl Cli {
    /// The options for `url` with nothing else given.
    pub fn with_defaults(url: String) -> (r: Cli)
        ensures
            r.url == url,
            r.format@ == default_format(),
            !r.list_formats,
            r.output is None,
            r.cookies is None,
            !r.verbose,
    {
        Cli {
            url,
            format: string_of(chars_of("bestvideo+bestaudio/best")),
            list_formats: false,
            output: None,
            cookies: None,
            verbose: false,
        }
    }
}

/// The last path segment of a URL, which progress messages name it by.
pub open spec fn url_tail_spec(url: Seq<char>) -> Seq<char> {
    split(url, '/').last()
}

/// The last path segment of a URL (see [`url_tail_spec`]).
pub fn url_tail(url: &str) -> (r: String)
    ensures
        r@ == url_tail_spec(url@),
{
    let u = chars_of(url);
    let parts = split_exec(&u, '/');
    proof {
        lemma_split_nonempty(u@, '/');
    }
    let last = &parts[parts.len() - 1];
    let copy = slice(last, 0, last.len());
    assert(copy@ =~= split(u@, '/').last());
    string_of(copy)
}

/// What follows the label of an error message: the text after `ERROR:`
/// without its leading whitespace, or the whole message.
pub open spec fn error_detail_spec(message: Seq<char>) -> Seq<char> {
    if starts_with(message, "ERROR:"@) {
        trim_start(message.skip("ERROR:"@.len() as int))
    } else {
        message
    }
}

/// What follows the label of an error message (see [`error_detail_spec`]).
pub fn error_detail(message: &str) -> (r: String)
    ensures
        r@ == error_detail_spec(message@),
{
    let m = chars_of(message);
    if !starts_with_lit(&m, "ERROR:") {
        return string_of(m);
    }
    let mut i = chars_of("ERROR:").len();
    let ghost rest = m@.skip("ERROR:"@.len() as int);
    assert(rest =~= m@.subrange(i as int, m.len() as int));
    while i < m.len() && is_whitespace(m[i])
        invariant
            "ERROR:"@.len() <= i <= m.len(),
            rest == m@.skip("ERROR:"@.len() as int),
            trim_start(rest) == trim_start(m@.subrange(i as int, m.len() as int)),
        decreases m.len() - i,
    {
        proof {
            assert(m@.subrange(i as int, m.len() as int).drop_first() =~= m@.subrange(
                i + 1,
                m.len() as int,
            ));
        }
        i = i + 1;
    }
    let out = slice(&m, i, m.len());
    assert(trim_start(out@) == out@);
    string_of(out)
}

} // verus!
