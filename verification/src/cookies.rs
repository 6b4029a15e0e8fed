//! Cookies from a Netscape `cookies.txt` file, as a `Cookie` header value.
//!
//! Each line of such a file is a tab-separated record: domain, subdomain
//! flag, path, secure flag, expiry, name and value. Lines starting with `#`
//! are comments, except that `#HttpOnly_` marks an HTTP-only cookie.

use vstd::prelude::*;
use crate::text::{
    append, chars_of, contains, contains_lit, join, lemma_join_push, lemma_split_first_piece,
    lemma_split_nonempty, occurs_at, slice, split, split_exec, starts_with, starts_with_lit,
    string_of, trim, trim_exec, views,
};

verus! {

/// `l` without one trailing carriage return.
pub open spec fn strip_cr(l: Seq<char>) -> Seq<char> {
    if l.len() > 0 && l.last() == '\r' {
        l.drop_last()
    } else {
        l
    }
}

/// The lines of `s` (`str::lines`): split at `\n`, a `\r` before the `\n`
/// removed, and no empty line after a final `\n`.
pub open spec fn lines(s: Seq<char>) -> Seq<Seq<char>> {
    let pieces = split(s, '\n');
    let ended = pieces.take(pieces.len() - 1).map_values(|l: Seq<char>| strip_cr(l));
    if pieces.last().len() == 0 {
        ended
    } else {
        ended.push(pieces.last())
    }
}

/// The `name=value` pair that one line of a cookie file contributes: none
/// for a blank line, a comment, a record of fewer than seven fields, or a
/// cookie of a domain that is neither YouTube's nor Google's.
pub open spec fn cookie_of_line(l: Seq<char>) -> Option<Seq<char>> {
    let line = trim(l);
    if line.len() == 0 || (starts_with(line, "#"@) && !starts_with(line, "#HttpOnly_"@)) {
        None
    } else {
        let record = if starts_with(line, "#HttpOnly_"@) {
            line.skip("#HttpOnly_"@.len() as int)
        } else {
            line
        };
        let fields = split(record, '\t');
        if fields.len() >= 7 && (contains(fields[0], "youtube"@) || contains(fields[0], "google"@)) {
            Some(trim(fields[5]) + "="@ + trim(fields[6]))
        } else {
            None
        }
    }
}

/// What occurs in a tail of a text occurs in the text.
proof fn lemma_contains_in_tail(d: Seq<char>, k: int, p: Seq<char>)
    requires
        0 <= k <= d.len(),
        contains(d.skip(k), p),
    ensures
        contains(d, p),
{
    let i = choose|i: int| occurs_at(d.skip(k), p, i);
    assert(d.subrange(i + k, i + k + p.len()) =~= d.skip(k).subrange(i, i + p.len()));
    assert(occurs_at(d, p, i + k));
}

/// A line whose domain, its first tab-separated field (after an optional
/// `#HttpOnly_` mark and surrounding whitespace), mentions neither
/// `youtube` nor `google` contributes no pair, whatever its other fields
/// hold.
pub proof fn lemma_foreign_domain_ignored(l: Seq<char>, marked: bool, domain: Seq<char>, rest: Seq<char>)
    requires
        trim(l) == (if marked {
            "#HttpOnly_"@ + domain + rest
        } else {
            domain + rest
        }),
        rest.len() == 0 || rest[0] == '\t',
        forall|k: int| 0 <= k < domain.len() ==> domain[k] != '\t',
        !contains(domain, "youtube"@),
        !contains(domain, "google"@),
    ensures
        cookie_of_line(l) is None,
{
    reveal_strlit("#HttpOnly_");
    reveal_strlit("#");
    let pre = "#HttpOnly_"@;
    let line = trim(l);
    if marked {
        assert(line.subrange(0, pre.len() as int) =~= pre);
        assert(starts_with(line, pre));
        assert(line.skip(pre.len() as int) =~= domain + rest);
        lemma_split_first_piece(domain, rest, '\t');
    } else if line.len() == 0 {
    } else if starts_with(line, pre) {
        assert(line =~= domain + rest);
        if domain.len() < pre.len() {
            if rest.len() == 0 {
                assert(false);
            } else {
                assert(line[domain.len() as int] == rest[0]);
                assert(line.subrange(0, pre.len() as int)[domain.len() as int] == pre[domain.len() as int]);
                assert(false);
            }
        }
        let tail = domain.skip(pre.len() as int);
        assert(line.skip(pre.len() as int) =~= tail + rest);
        assert forall|k: int| 0 <= k < tail.len() implies tail[k] != '\t' by {
            assert(tail[k] == domain[k + pre.len()]);
        }
        lemma_split_first_piece(tail, rest, '\t');
        if contains(tail, "youtube"@) {
            lemma_contains_in_tail(domain, pre.len() as int, "youtube"@);
        }
        if contains(tail, "google"@) {
            lemma_contains_in_tail(domain, pre.len() as int, "google"@);
        }
    } else if starts_with(line, "#"@) {
    } else {
        lemma_split_first_piece(domain, rest, '\t');
    }
}

/// The pairs that a sequence of lines contributes, in order.
pub open spec fn cookie_pairs(ls: Seq<Seq<char>>) -> Seq<Seq<char>>
    decreases ls.len(),
{
    if ls.len() == 0 {
        Seq::empty()
    } else {
        let before = cookie_pairs(ls.drop_last());
        match cookie_of_line(ls.last()) {
            Some(p) => before.push(p),
            None => before,
        }
    }
}

/// The `Cookie` header value for the YouTube and Google cookies of a
/// cookie file: their pairs joined by `; `.
pub open spec fn cookie_header(content: Seq<char>) -> Seq<char> {
    join(cookie_pairs(lines(content)), "; "@)
}

/// The lines of a text (see [`lines`]).
pub fn lines_exec(s: &Vec<char>) -> (r: Vec<Vec<char>>)
    ensures
        views(r@) == lines(s@),
{
    let pieces = split_exec(s, '\n');
    proof {
        lemma_split_nonempty(s@, '\n');
    }
    let ghost all = views(pieces@);
    let ghost ended = all.take(all.len() - 1).map_values(|l: Seq<char>| strip_cr(l));
    let n = pieces.len();
    let mut r: Vec<Vec<char>> = Vec::new();
    let mut i: usize = 0;
    while i + 1 < n
        invariant
            n == pieces.len(),
            n >= 1,
            all == views(pieces@),
            ended == all.take(all.len() - 1).map_values(|l: Seq<char>| strip_cr(l)),
            i < n,
            views(r@) == ended.take(i as int),
        decreases n - i,
    {
        let p = &pieces[i];
        let l = if p.len() > 0 && p[p.len() - 1] == '\r' {
            slice(p, 0, p.len() - 1)
        } else {
            slice(p, 0, p.len())
        };
        proof {
            assert(all[i as int] == p@);
            assert(l@ =~= strip_cr(p@));
        }
        let ghost before = views(r@);
        r.push(l);
        proof {
            assert(views(r@) =~= before.push(l@));
            assert(ended.take(i + 1) =~= ended.take(i as int).push(ended[i as int]));
        }
        i = i + 1;
    }
    assert(ended.take(i as int) =~= ended);
    let last = &pieces[n - 1];
    assert(all.last() == last@);
    if last.len() > 0 {
        let ghost before = views(r@);
        let copy = slice(last, 0, last.len());
        assert(copy@ =~= last@);
        r.push(copy);
        assert(views(r@) =~= before.push(last@));
    }
    r
}

/// The pair that one line contributes (see [`cookie_of_line`]).
pub fn cookie_of_line_exec(l: &Vec<char>) -> (r: Option<Vec<char>>)
    ensures
        match cookie_of_line(l@) {
            Some(p) => r matches Some(v) && v@ == p,
            None => r is None,
        },
{
    let line = trim_exec(l);
    let http_only = starts_with_lit(&line, "#HttpOnly_");
    if line.len() == 0 || (starts_with_lit(&line, "#") && !http_only) {
        return None;
    }
    let record = if http_only {
        let prefix = chars_of("#HttpOnly_");
        slice(&line, prefix.len(), line.len())
    } else {
        slice(&line, 0, line.len())
    };
    assert(record@ =~= (if starts_with(line@, "#HttpOnly_"@) {
        line@.skip("#HttpOnly_"@.len() as int)
    } else {
        line@
    }));
    let fields = split_exec(&record, '\t');
    if fields.len() >= 7 && (contains_lit(&fields[0], "youtube") || contains_lit(
        &fields[0],
        "google",
    )) {
        let mut pair = trim_exec(&fields[5]);
        let eq = chars_of("=");
        append(&mut pair, &eq);
        let value = trim_exec(&fields[6]);
        append(&mut pair, &value);
        proof {
            assert(views(fields@)[5] == fields@[5]@);
            assert(views(fields@)[6] == fields@[6]@);
        }
        Some(pair)
    } else {
        proof {
            if fields.len() >= 7 {
                assert(views(fields@)[0] == fields@[0]@);
            }
        }
        None
    }
}

/// The `Cookie` header value for the YouTube and Google cookies of a
/// cookie file's text (see [`cookie_header`]).
pub fn parse_netscape_cookies(content: &str) -> (r: String)
    ensures
        r@ == cookie_header(content@),
{
    let c = chars_of(content);
    let ls = lines_exec(&c);
    let ghost lv = views(ls@);
    let mut out: Vec<char> = Vec::new();
    let ghost mut pairs: Seq<Seq<char>> = Seq::empty();
    let mut count: usize = 0;
    let mut i: usize = 0;
    while i < ls.len()
        invariant
            i <= ls.len(),
            count == pairs.len(),
            count <= i,
            lv == views(ls@),
            pairs == cookie_pairs(lv.take(i as int)),
            out@ == join(pairs, "; "@),
        decreases ls.len() - i,
    {
        proof {
            assert(lv.take(i + 1).drop_last() =~= lv.take(i as int));
            assert(lv.take(i + 1).last() == ls@[i as int]@);
        }
        match cookie_of_line_exec(&ls[i]) {
            Some(pair) => {
                if count > 0 {
                    let sep = chars_of("; ");
                    append(&mut out, &sep);
                    proof {
                        lemma_join_push(pairs, "; "@, pair@);
                    }
                } else {
                    assert(pairs.push(pair@) =~= seq![pair@]);
                    assert(out@ =~= Seq::<char>::empty());
                }
                append(&mut out, &pair);
                proof {
                    pairs = pairs.push(pair@);
                }
                count = count + 1;
            },
            None => {},
        }
        i = i + 1;
    }
    assert(lv.take(ls.len() as int) =~= lv);
    string_of(out)
}

} // verus!
