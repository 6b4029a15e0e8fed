//! The order in which formats are listed: worst first, best last.

use vstd::prelude::*;
use vstd::multiset::Multiset;
use crate::format::{Format, FormatView};
use crate::rate::{kbps_key, kbps_order_key};
use crate::text::{chars_of, contains, contains_lit, eq_lit, starts_with, starts_with_lit};

verus! {

// ---------------------------------------------------------------------
// The order
// ---------------------------------------------------------------------

/// The stream carries video.
pub open spec fn has_video(f: FormatView) -> bool {
    f.vcodec != "none"@ && !starts_with(f.vcodec, "audio"@) && f.vcodec != "images"@
}

/// The stream carries audio.
pub open spec fn has_audio(f: FormatView) -> bool {
    f.acodec != "none"@ && !starts_with(f.acodec, "video"@)
}

/// The stream is a set of images (a storyboard).
pub open spec fn is_images(f: FormatView) -> bool {
    (f.vcodec == "none"@ && f.acodec == "none"@) || f.vcodec == "images"@ || contains(
        f.note,
        "storyboard"@,
    )
}

/// Images come first, then audio only, then everything with video.
pub open spec fn type_score(f: FormatView) -> u128 {
    if is_images(f) {
        0
    } else if !has_video(f) && has_audio(f) {
        1
    } else {
        2
    }
}

/// Video codecs from least to most preferred.
pub open spec fn vcodec_score(c: Seq<char>) -> u128 {
    if contains(c, "av01"@) {
        4
    } else if contains(c, "vp9"@) {
        3
    } else if contains(c, "vp8"@) {
        2
    } else if contains(c, "avc"@) || contains(c, "h264"@) {
        1
    } else {
        0
    }
}

/// Audio codecs from least to most preferred.
pub open spec fn acodec_score(c: Seq<char>) -> u128 {
    if contains(c, "opus"@) {
        3
    } else if contains(c, "vorbis"@) || contains(c, "ogg"@) {
        2
    } else if contains(c, "mp4a"@) || contains(c, "aac"@) {
        1
    } else {
        0
    }
}

pub open spec fn or_zero(o: Option<u64>) -> u128 {
    match o {
        Some(v) => v as u128,
        None => 0,
    }
}

/// The code points of a text.
pub open spec fn code_points(s: Seq<char>) -> Seq<u128> {
    s.map_values(|c: char| c as u32 as u128)
}

/// What formats are ordered by, most significant first: kind of stream,
/// height, width, frame rate, video codec, audio codec, total bitrate (by
/// its kilobit figure) and file size (absent numbers counting as 0), then
/// the format id as text.
pub open spec fn sort_key(f: FormatView) -> Seq<u128> {
    seq![
        type_score(f),
        or_zero(f.height),
        or_zero(f.width),
        or_zero(f.fps),
        vcodec_score(f.vcodec),
        acodec_score(f.acodec),
        kbps_key(f.tbr) as u128,
        or_zero(f.filesize),
    ] + code_points(f.format_id)
}

/// Lexicographic comparison: negative, zero or positive as `a` comes
/// before, with or after `b`; a proper prefix comes before.
pub open spec fn lex_order(a: Seq<u128>, b: Seq<u128>) -> int
    decreases a.len(),
{
    if a.len() == 0 {
        if b.len() == 0 {
            0
        } else {
            -1
        }
    } else if b.len() == 0 {
        1
    } else if a[0] < b[0] {
        -1
    } else if a[0] > b[0] {
        1
    } else {
        lex_order(a.drop_first(), b.drop_first())
    }
}

/// How two formats compare in the listing order.
pub open spec fn format_order(a: FormatView, b: FormatView) -> int {
    lex_order(sort_key(a), sort_key(b))
}

/// The views of a sequence of formats.
pub open spec fn format_views(s: Seq<Format>) -> Seq<FormatView> {
    s.map_values(|f: Format| f@)
}

/// No format comes after one that it precedes in the order.
pub open spec fn is_sorted(s: Seq<FormatView>) -> bool {
    forall|i: int, j: int| 0 <= i < j < s.len() ==> format_order(s[i], s[j]) <= 0
}

/// `output` is `input` rearranged by `p` (`output[k]` is `input[p[k]]`),
/// in order, and formats that compare equal keep their relative order.
pub open spec fn is_stable_sort_by(input: Seq<FormatView>, output: Seq<FormatView>, p: Seq<int>) -> bool {
    &&& p.len() == input.len()
    &&& output.len() == input.len()
    &&& forall|k: int| 0 <= k < p.len() ==> 0 <= #[trigger] p[k] < input.len()
    &&& forall|k: int, l: int| 0 <= k < l < p.len() ==> p[k] != p[l]
    &&& forall|k: int| 0 <= k < p.len() ==> output[k] == input[#[trigger] p[k]]
    &&& is_sorted(output)
    &&& forall|k: int, l: int|
        0 <= k < l < p.len() && format_order(output[k], output[l]) == 0 ==> p[k] < p[l]
}

/// `output` is the stable sort of `input` in the listing order.
pub open spec fn is_stable_sort(input: Seq<FormatView>, output: Seq<FormatView>) -> bool {
    exists|p: Seq<int>| is_stable_sort_by(input, output, p)
}

// ---------------------------------------------------------------------
// Laws of the comparison
// ---------------------------------------------------------------------

/// Comparing the other way round gives the opposite answer.
pub proof fn lemma_lex_order_antisymmetric(a: Seq<u128>, b: Seq<u128>)
    ensures
        lex_order(a, b) == -lex_order(b, a),
        -1 <= lex_order(a, b) <= 1,
    decreases a.len(),
{
    if a.len() > 0 && b.len() > 0 && a[0] == b[0] {
        lemma_lex_order_antisymmetric(a.drop_first(), b.drop_first());
    }
}

/// Only equal sequences compare equal.
pub proof fn lemma_lex_order_equal(a: Seq<u128>, b: Seq<u128>)
    ensures
        lex_order(a, b) == 0 <==> a == b,
    decreases a.len(),
{
    if a.len() == 0 && b.len() == 0 {
        assert(a =~= b);
    } else if a.len() > 0 && b.len() > 0 && a[0] == b[0] {
        lemma_lex_order_equal(a.drop_first(), b.drop_first());
        if a.drop_first() == b.drop_first() {
            assert(a =~= seq![a[0]] + a.drop_first());
            assert(b =~= seq![b[0]] + b.drop_first());
        }
        if a == b {
            assert(a.drop_first() == b.drop_first());
        }
    } else if a.len() > 0 && b.len() > 0 {
        assert(a[0] != b[0]);
    }
}

/// The order is transitive.
pub proof fn lemma_lex_order_transitive(a: Seq<u128>, b: Seq<u128>, c: Seq<u128>)
    requires
        lex_order(a, b) <= 0,
        lex_order(b, c) <= 0,
    ensures
        lex_order(a, c) <= 0,
        lex_order(a, b) < 0 || lex_order(b, c) < 0 ==> lex_order(a, c) < 0,
    decreases a.len(),
{
    if a.len() > 0 && b.len() > 0 && c.len() > 0 && a[0] == b[0] && b[0] == c[0] {
        lemma_lex_order_transitive(a.drop_first(), b.drop_first(), c.drop_first());
    }
}

/// Formats compare equal exactly when their sort keys are equal, and
/// comparing the other way round gives the opposite answer.
pub proof fn lemma_format_order_total(a: FormatView, b: FormatView)
    ensures
        format_order(a, b) == -format_order(b, a),
        format_order(a, b) == 0 <==> sort_key(a) == sort_key(b),
        format_order(a, a) == 0,
{
    lemma_lex_order_antisymmetric(sort_key(a), sort_key(b));
    lemma_lex_order_equal(sort_key(a), sort_key(b));
    lemma_lex_order_equal(sort_key(a), sort_key(a));
}

/// The listing order is transitive.
pub proof fn lemma_format_order_transitive(a: FormatView, b: FormatView, c: FormatView)
    requires
        format_order(a, b) <= 0,
        format_order(b, c) <= 0,
    ensures
        format_order(a, c) <= 0,
        format_order(a, b) < 0 || format_order(b, c) < 0 ==> format_order(a, c) < 0,
{
    lemma_lex_order_transitive(sort_key(a), sort_key(b), sort_key(c));
}

// ---------------------------------------------------------------------
// Laws of the listing
// ---------------------------------------------------------------------

proof fn lemma_lex_order_head(a: Seq<u128>, b: Seq<u128>)
    requires
        lex_order(a, b) <= 0,
        a.len() > 0,
        b.len() > 0,
    ensures
        a[0] <= b[0],
        a[0] == b[0] ==> lex_order(a.drop_first(), b.drop_first()) <= 0,
{
}

/// In a sorted listing, storyboards come first, then audio-only streams,
/// then streams with video.
pub proof fn lemma_listing_kinds_ascend(input: Seq<FormatView>, output: Seq<FormatView>)
    requires
        is_stable_sort(input, output),
    ensures
        forall|i: int, j: int|
            0 <= i < j < output.len() ==> type_score(output[i]) <= type_score(output[j]),
{
    assert forall|i: int, j: int| 0 <= i < j < output.len() implies type_score(output[i])
        <= type_score(output[j]) by {
        let p = choose|p: Seq<int>| is_stable_sort_by(input, output, p);
        assert(format_order(output[i], output[j]) <= 0);
        lemma_lex_order_head(sort_key(output[i]), sort_key(output[j]));
    }
}

/// In a sorted listing, among streams of one kind, taller ones come later,
/// and among those of one kind and height, wider ones.
pub proof fn lemma_listing_resolution_ascends(input: Seq<FormatView>, output: Seq<FormatView>)
    requires
        is_stable_sort(input, output),
    ensures
        forall|i: int, j: int|
            0 <= i < j < output.len() && type_score(output[i]) == type_score(output[j])
                ==> or_zero(output[i].height) <= or_zero(output[j].height),
        forall|i: int, j: int|
            0 <= i < j < output.len() && type_score(output[i]) == type_score(output[j])
                && or_zero(output[i].height) == or_zero(output[j].height) ==> or_zero(
                output[i].width,
            ) <= or_zero(output[j].width),
{
    assert forall|i: int, j: int|
        0 <= i < j < output.len() && type_score(output[i]) == type_score(output[j]) implies or_zero(
        output[i].height,
    ) <= or_zero(output[j].height) && (or_zero(output[i].height) == or_zero(output[j].height)
        ==> or_zero(output[i].width) <= or_zero(output[j].width)) by {
        let p = choose|p: Seq<int>| is_stable_sort_by(input, output, p);
        assert(format_order(output[i], output[j]) <= 0);
        let a = sort_key(output[i]);
        let b = sort_key(output[j]);
        lemma_lex_order_head(a, b);
        lemma_lex_order_head(a.drop_first(), b.drop_first());
        if a[1] == b[1] {
            lemma_lex_order_head(a.drop_first().drop_first(), b.drop_first().drop_first());
        }
    }
}

/// Where two sequences compare in order and agree before position `k`, the
/// first is no greater at `k`.
proof fn lemma_lex_order_at(a: Seq<u128>, b: Seq<u128>, k: int)
    requires
        lex_order(a, b) <= 0,
        0 <= k < a.len(),
        k < b.len(),
        forall|m: int| 0 <= m < k ==> a[m] == b[m],
    ensures
        a[k] <= b[k],
    decreases k,
{
    lemma_lex_order_head(a, b);
    if k > 0 {
        assert(a[0] == b[0]);
        assert forall|m: int| 0 <= m < k - 1 implies a.drop_first()[m] == b.drop_first()[m] by {
            assert(a[m + 1] == b[m + 1]);
        }
        lemma_lex_order_at(a.drop_first(), b.drop_first(), k - 1);
    }
}

/// For two formats in listing order, each field that the listing is
/// ordered by is no greater in the first wherever all the fields before it
/// agree.
proof fn lemma_fields_in_order(x: FormatView, y: FormatView)
    requires
        format_order(x, y) <= 0,
    ensures
        type_score(x) == type_score(y) && or_zero(x.height) == or_zero(y.height) && or_zero(x.width)
            == or_zero(y.width) ==> or_zero(x.fps) <= or_zero(y.fps),
        type_score(x) == type_score(y) && or_zero(x.height) == or_zero(y.height) && or_zero(x.width)
            == or_zero(y.width) && or_zero(x.fps) == or_zero(y.fps) ==> vcodec_score(x.vcodec)
            <= vcodec_score(y.vcodec),
        type_score(x) == type_score(y) && or_zero(x.height) == or_zero(y.height) && or_zero(x.width)
            == or_zero(y.width) && or_zero(x.fps) == or_zero(y.fps) && vcodec_score(x.vcodec)
            == vcodec_score(y.vcodec) ==> acodec_score(x.acodec) <= acodec_score(y.acodec),
        type_score(x) == type_score(y) && or_zero(x.height) == or_zero(y.height) && or_zero(x.width)
            == or_zero(y.width) && or_zero(x.fps) == or_zero(y.fps) && vcodec_score(x.vcodec)
            == vcodec_score(y.vcodec) && acodec_score(x.acodec) == acodec_score(y.acodec)
            ==> kbps_key(x.tbr) as u128 <= kbps_key(y.tbr) as u128,
        type_score(x) == type_score(y) && or_zero(x.height) == or_zero(y.height) && or_zero(x.width)
            == or_zero(y.width) && or_zero(x.fps) == or_zero(y.fps) && vcodec_score(x.vcodec)
            == vcodec_score(y.vcodec) && acodec_score(x.acodec) == acodec_score(y.acodec)
            && kbps_key(x.tbr) == kbps_key(y.tbr) ==> or_zero(x.filesize) <= or_zero(y.filesize),
{
    let a = sort_key(x);
    let b = sort_key(y);
    let fa = seq![
        type_score(x),
        or_zero(x.height),
        or_zero(x.width),
        or_zero(x.fps),
        vcodec_score(x.vcodec),
        acodec_score(x.acodec),
        kbps_key(x.tbr) as u128,
        or_zero(x.filesize),
    ];
    let fb = seq![
        type_score(y),
        or_zero(y.height),
        or_zero(y.width),
        or_zero(y.fps),
        vcodec_score(y.vcodec),
        acodec_score(y.acodec),
        kbps_key(y.tbr) as u128,
        or_zero(y.filesize),
    ];
    assert forall|m: int| 0 <= m < 8 implies a[m] == fa[m] && b[m] == fb[m] by {}
    assert(a.len() >= 8 && b.len() >= 8);
    if a[0] == b[0] && a[1] == b[1] && a[2] == b[2] {
        lemma_lex_order_at(a, b, 3);
        if a[3] == b[3] {
            lemma_lex_order_at(a, b, 4);
            if a[4] == b[4] {
                lemma_lex_order_at(a, b, 5);
                if a[5] == b[5] {
                    lemma_lex_order_at(a, b, 6);
                    if a[6] == b[6] {
                        lemma_lex_order_at(a, b, 7);
                    }
                }
            }
        }
    }
}

/// In a sorted listing, among streams of one kind, height and width, the
/// frame rate never falls; where that agrees too, the video codec's rank
/// never falls (avc/h264 below vp8, below vp9, below av01) whatever the
/// audio codecs; then the audio codec's rank, the total bitrate and the
/// file size, each where everything before it agrees.
pub proof fn lemma_listing_codecs_ascend(input: Seq<FormatView>, output: Seq<FormatView>)
    requires
        is_stable_sort(input, output),
    ensures
        forall|i: int, j: int|
            0 <= i < j < output.len() && type_score(output[i]) == type_score(output[j]) && or_zero(
                output[i].height,
            ) == or_zero(output[j].height) && or_zero(output[i].width) == or_zero(output[j].width)
                ==> or_zero(output[i].fps) <= or_zero(output[j].fps),
        forall|i: int, j: int|
            0 <= i < j < output.len() && type_score(output[i]) == type_score(output[j]) && or_zero(
                output[i].height,
            ) == or_zero(output[j].height) && or_zero(output[i].width) == or_zero(output[j].width)
                && or_zero(output[i].fps) == or_zero(output[j].fps) ==> vcodec_score(
                output[i].vcodec,
            ) <= vcodec_score(output[j].vcodec),
        forall|i: int, j: int|
            0 <= i < j < output.len() && type_score(output[i]) == type_score(output[j]) && or_zero(
                output[i].height,
            ) == or_zero(output[j].height) && or_zero(output[i].width) == or_zero(output[j].width)
                && or_zero(output[i].fps) == or_zero(output[j].fps) && vcodec_score(
                output[i].vcodec,
            ) == vcodec_score(output[j].vcodec) ==> acodec_score(output[i].acodec) <= acodec_score(
                output[j].acodec,
            ),
        forall|i: int, j: int|
            0 <= i < j < output.len() && type_score(output[i]) == type_score(output[j]) && or_zero(
                output[i].height,
            ) == or_zero(output[j].height) && or_zero(output[i].width) == or_zero(output[j].width)
                && or_zero(output[i].fps) == or_zero(output[j].fps) && vcodec_score(
                output[i].vcodec,
            ) == vcodec_score(output[j].vcodec) && acodec_score(output[i].acodec) == acodec_score(
                output[j].acodec,
            ) ==> kbps_key(output[i].tbr) as u128 <= kbps_key(output[j].tbr) as u128,
        forall|i: int, j: int|
            0 <= i < j < output.len() && type_score(output[i]) == type_score(output[j]) && or_zero(
                output[i].height,
            ) == or_zero(output[j].height) && or_zero(output[i].width) == or_zero(output[j].width)
                && or_zero(output[i].fps) == or_zero(output[j].fps) && vcodec_score(
                output[i].vcodec,
            ) == vcodec_score(output[j].vcodec) && acodec_score(output[i].acodec) == acodec_score(
                output[j].acodec,
            ) && kbps_key(output[i].tbr) == kbps_key(output[j].tbr) ==> or_zero(output[i].filesize)
                <= or_zero(output[j].filesize),
{
    assert forall|i: int, j: int| #![trigger output[i], output[j]] 0 <= i < j < output.len() implies {
        let x = output[i];
        let y = output[j];
        &&& type_score(x) == type_score(y) && or_zero(x.height) == or_zero(y.height) && or_zero(
            x.width,
        ) == or_zero(y.width) ==> or_zero(x.fps) <= or_zero(y.fps)
        &&& type_score(x) == type_score(y) && or_zero(x.height) == or_zero(y.height) && or_zero(
            x.width,
        ) == or_zero(y.width) && or_zero(x.fps) == or_zero(y.fps) ==> vcodec_score(x.vcodec)
            <= vcodec_score(y.vcodec)
        &&& type_score(x) == type_score(y) && or_zero(x.height) == or_zero(y.height) && or_zero(
            x.width,
        ) == or_zero(y.width) && or_zero(x.fps) == or_zero(y.fps) && vcodec_score(x.vcodec)
            == vcodec_score(y.vcodec) ==> acodec_score(x.acodec) <= acodec_score(y.acodec)
        &&& type_score(x) == type_score(y) && or_zero(x.height) == or_zero(y.height) && or_zero(
            x.width,
        ) == or_zero(y.width) && or_zero(x.fps) == or_zero(y.fps) && vcodec_score(x.vcodec)
            == vcodec_score(y.vcodec) && acodec_score(x.acodec) == acodec_score(y.acodec)
            ==> kbps_key(x.tbr) as u128 <= kbps_key(y.tbr) as u128
        &&& type_score(x) == type_score(y) && or_zero(x.height) == or_zero(y.height) && or_zero(
            x.width,
        ) == or_zero(y.width) && or_zero(x.fps) == or_zero(y.fps) && vcodec_score(x.vcodec)
            == vcodec_score(y.vcodec) && acodec_score(x.acodec) == acodec_score(y.acodec)
            && kbps_key(x.tbr) == kbps_key(y.tbr) ==> or_zero(x.filesize) <= or_zero(y.filesize)
    } by {
        let p = choose|p: Seq<int>| is_stable_sort_by(input, output, p);
        assert(format_order(output[i], output[j]) <= 0);
        lemma_fields_in_order(output[i], output[j]);
    }
}

/// Sorting a listing that is already in order leaves it as it is.
pub proof fn lemma_sorted_listing_is_fixed(s: Seq<FormatView>)
    requires
        is_sorted(s),
    ensures
        is_stable_sort(s, s),
{
    let p = Seq::new(s.len(), |k: int| k);
    assert(is_stable_sort_by(s, s, p));
}

/// A rearrangement of `0..n` without repeats takes every value.
proof fn lemma_rearrangement_onto(p: Seq<int>, n: int, v: int)
    requires
        p.len() == n,
        forall|k: int| 0 <= k < n ==> 0 <= #[trigger] p[k] < n,
        forall|k: int, l: int| 0 <= k < l < n ==> p[k] != p[l],
        0 <= v < n,
    ensures
        exists|k: int| 0 <= k < n && p[k] == v,
{
    broadcast use vstd::set::group_set_axioms;
    broadcast use vstd::seq_lib::seq_to_set_is_finite;

    assert(p.no_duplicates()) by {
        assert forall|i: int, j: int| 0 <= i < p.len() && 0 <= j < p.len() && i != j implies p[i]
            != p[j] by {
            if i < j {
            } else {
            }
        }
    }
    p.unique_seq_to_set();
    vstd::set_lib::lemma_int_range(0, n);
    let range = vstd::set_lib::set_int_range(0, n);
    assert(p.to_set().subset_of(range)) by {
        assert forall|x: int| p.to_set().contains(x) implies range.contains(x) by {
            let k = choose|k: int| 0 <= k < p.len() && p[k] == x;
        }
    }
    vstd::set_lib::lemma_subset_equality(p.to_set(), range);
    assert(range.contains(v));
    assert(p.to_set().contains(v));
}

/// Index `i` of `input` comes before index `j` in the stable order.
pub open spec fn index_precedes(input: Seq<FormatView>, i: int, j: int) -> bool {
    format_order(input[i], input[j]) < 0 || (format_order(input[i], input[j]) == 0 && i < j)
}

proof fn lemma_stable_sort_precedes(
    input: Seq<FormatView>,
    output: Seq<FormatView>,
    p: Seq<int>,
    k: int,
    l: int,
)
    requires
        is_stable_sort_by(input, output, p),
        0 <= k < l < p.len(),
    ensures
        index_precedes(input, p[k], p[l]),
{
    assert(format_order(output[k], output[l]) <= 0);
}

proof fn lemma_stable_sorts_agree(
    input: Seq<FormatView>,
    o1: Seq<FormatView>,
    o2: Seq<FormatView>,
    p1: Seq<int>,
    p2: Seq<int>,
    k: int,
)
    requires
        is_stable_sort_by(input, o1, p1),
        is_stable_sort_by(input, o2, p2),
        0 <= k < p1.len(),
        forall|m: int| 0 <= m < k ==> p1[m] == p2[m],
    ensures
        p1[k] == p2[k],
{
    let n = p1.len() as int;
    let a = p1[k];
    let b = p2[k];
    if a != b {
        lemma_rearrangement_onto(p2, n, a);
        let m2 = choose|m: int| 0 <= m < n && p2[m] == a;
        lemma_rearrangement_onto(p1, n, b);
        let m1 = choose|m: int| 0 <= m < n && p1[m] == b;
        if m2 < k {
            assert(p1[m2] == p2[m2]);
        }
        if m1 < k {
            assert(p1[m1] == p2[m1]);
        }
        assert(m2 > k && m1 > k);
        lemma_stable_sort_precedes(input, o2, p2, k, m2);
        lemma_stable_sort_precedes(input, o1, p1, k, m1);
        lemma_format_order_total(input[a], input[b]);
    }
}

proof fn lemma_stable_sorts_agree_upto(
    input: Seq<FormatView>,
    o1: Seq<FormatView>,
    o2: Seq<FormatView>,
    p1: Seq<int>,
    p2: Seq<int>,
    k: int,
)
    requires
        is_stable_sort_by(input, o1, p1),
        is_stable_sort_by(input, o2, p2),
        0 <= k <= p1.len(),
    ensures
        forall|m: int| 0 <= m < k ==> p1[m] == p2[m],
    decreases k,
{
    if k > 0 {
        lemma_stable_sorts_agree_upto(input, o1, o2, p1, p2, k - 1);
        lemma_stable_sorts_agree(input, o1, o2, p1, p2, k - 1);
    }
}

/// The listing order is fully determined: a list of formats has exactly
/// one stable sort.
pub proof fn lemma_stable_sort_unique(input: Seq<FormatView>, o1: Seq<FormatView>, o2: Seq<FormatView>)
    requires
        is_stable_sort(input, o1),
        is_stable_sort(input, o2),
    ensures
        o1 == o2,
{
    let p1 = choose|p: Seq<int>| is_stable_sort_by(input, o1, p);
    let p2 = choose|p: Seq<int>| is_stable_sort_by(input, o2, p);
    lemma_stable_sorts_agree_upto(input, o1, o2, p1, p2, p1.len() as int);
    assert forall|k: int| 0 <= k < o1.len() implies o1[k] == o2[k] by {
        assert(o1[k] == input[p1[k]]);
        assert(o2[k] == input[p2[k]]);
    }
    assert(o1 =~= o2);
}

/// Sorting a sorted listing again changes nothing.
pub proof fn lemma_listing_sort_idempotent(
    input: Seq<FormatView>,
    sorted: Seq<FormatView>,
    again: Seq<FormatView>,
)
    requires
        is_stable_sort(input, sorted),
        is_stable_sort(sorted, again),
    ensures
        again == sorted,
{
    lemma_sorted_listing_is_fixed(sorted);
    lemma_stable_sort_unique(sorted, again, sorted);
}

// ---------------------------------------------------------------------
// Executable comparison
// ---------------------------------------------------------------------

fn type_score_exec(f: &Format) -> (r: u128)
    ensures
        r == type_score(f@),
{
    let v = chars_of(f.vcodec.as_str());
    let a = chars_of(f.acodec.as_str());
    let n = chars_of(f.note.as_str());
    let video = !eq_lit(&v, "none") && !starts_with_lit(&v, "audio") && !eq_lit(&v, "images");
    let audio = !eq_lit(&a, "none") && !starts_with_lit(&a, "video");
    let images = (eq_lit(&v, "none") && eq_lit(&a, "none")) || eq_lit(&v, "images")
        || contains_lit(&n, "storyboard");
    if images {
        0
    } else if !video && audio {
        1
    } else {
        2
    }
}

fn vcodec_score_exec(c: &Vec<char>) -> (r: u128)
    ensures
        r == vcodec_score(c@),
{
    if contains_lit(c, "av01") {
        4
    } else if contains_lit(c, "vp9") {
        3
    } else if contains_lit(c, "vp8") {
        2
    } else if contains_lit(c, "avc") || contains_lit(c, "h264") {
        1
    } else {
        0
    }
}

fn acodec_score_exec(c: &Vec<char>) -> (r: u128)
    ensures
        r == acodec_score(c@),
{
    if contains_lit(c, "opus") {
        3
    } else if contains_lit(c, "vorbis") || contains_lit(c, "ogg") {
        2
    } else if contains_lit(c, "mp4a") || contains_lit(c, "aac") {
        1
    } else {
        0
    }
}

fn or_zero_exec(o: Option<u64>) -> (r: u128)
    ensures
        r == or_zero(o),
{
    match o {
        Some(v) => v as u128,
        None => 0,
    }
}

/// The sort key of a format (see [`sort_key`]).
pub fn sort_key_exec(f: &Format) -> (r: Vec<u128>)
    ensures
        r@ == sort_key(f@),
{
    let v = chars_of(f.vcodec.as_str());
    let a = chars_of(f.acodec.as_str());
    let id = chars_of(f.format_id.as_str());
    let mut r: Vec<u128> = Vec::new();
    r.push(type_score_exec(f));
    r.push(or_zero_exec(f.height));
    r.push(or_zero_exec(f.width));
    r.push(or_zero_exec(f.fps));
    r.push(vcodec_score_exec(&v));
    r.push(acodec_score_exec(&a));
    r.push(kbps_order_key(f.tbr));
    r.push(or_zero_exec(f.filesize));
    let ghost head = r@;
    let mut i: usize = 0;
    while i < id.len()
        invariant
            i <= id.len(),
            r@ == head + code_points(id@.take(i as int)),
        decreases id.len() - i,
    {
        r.push(id[i] as u32 as u128);
        proof {
            assert(code_points(id@.take(i + 1)) =~= code_points(id@.take(i as int)).push(
                id@[i as int] as u32 as u128,
            ));
        }
        i = i + 1;
    }
    proof {
        assert(id@.take(id.len() as int) =~= id@);
        assert(head =~= seq![
            type_score(f@),
            or_zero(f@.height),
            or_zero(f@.width),
            or_zero(f@.fps),
            vcodec_score(f@.vcodec),
            acodec_score(f@.acodec),
            kbps_key(f@.tbr) as u128,
            or_zero(f@.filesize),
        ]);
    }
    r
}

/// Lexicographic comparison of two keys (see [`lex_order`]).
pub fn lex_order_exec(a: &Vec<u128>, b: &Vec<u128>) -> (r: i8)
    ensures
        r as int == lex_order(a@, b@),
{
    let mut i: usize = 0;
    assert(a@.skip(0) =~= a@);
    assert(b@.skip(0) =~= b@);
    while i < a.len() && i < b.len() && a[i] == b[i]
        invariant
            i <= a.len(),
            i <= b.len(),
            lex_order(a@, b@) == lex_order(a@.skip(i as int), b@.skip(i as int)),
        decreases a.len() - i,
    {
        proof {
            assert(a@.skip(i as int).drop_first() =~= a@.skip(i + 1));
            assert(b@.skip(i as int).drop_first() =~= b@.skip(i + 1));
        }
        i = i + 1;
    }
    if i == a.len() {
        if i == b.len() {
            0
        } else {
            -1
        }
    } else if i == b.len() {
        1
    } else if a[i] < b[i] {
        -1
    } else {
        1
    }
}

/// How two formats compare in the listing order (see [`format_order`]).
pub fn format_order_exec(a: &Format, b: &Format) -> (r: i8)
    ensures
        r as int == format_order(a@, b@),
{
    let ka = sort_key_exec(a);
    let kb = sort_key_exec(b);
    lex_order_exec(&ka, &kb)
}

proof fn lemma_insert_to_multiset<A>(s: Seq<A>, k: int, x: A)
    requires
        0 <= k <= s.len(),
    ensures
        s.insert(k, x).to_multiset() =~= s.to_multiset().insert(x),
{
    broadcast use vstd::seq_lib::group_to_multiset_ensures;
    broadcast use vstd::multiset::group_multiset_axioms;

    let t = s.insert(k, x);
    assert(t.remove(k) =~= s);
    assert(t[k] == x);
    assert(t.contains(x));
    assert(t.to_multiset().remove(x) =~= s.to_multiset());
}

// ---------------------------------------------------------------------
// Sorting
// ---------------------------------------------------------------------

/// Sorts formats into the listing order, keeping formats that compare
/// equal in the order they came in.
pub fn sort_formats(v: Vec<Format>) -> (r: Vec<Format>)
    ensures
        is_stable_sort(format_views(v@), format_views(r@)),
        format_views(r@).to_multiset() == format_views(v@).to_multiset(),
{
    let ghost input = format_views(v@);
    let mut rest = v;
    let mut out: Vec<Format> = Vec::new();
    let ghost mut p: Seq<int> = Seq::empty();
    assert(format_views(rest@) =~= input.take(rest.len() as int));
    proof {
        broadcast use vstd::seq_lib::group_to_multiset_ensures;
        broadcast use vstd::multiset::group_multiset_axioms;
        broadcast use vstd::multiset::group_multiset_properties;
        assert(format_views(rest@) =~= input);
        assert(format_views(out@).len() == 0);
        assert(format_views(out@).to_multiset().len() == 0);
        assert(format_views(out@).to_multiset() =~= Multiset::empty());
        assert(Multiset::<FormatView>::empty().add(input.to_multiset()) =~= input.to_multiset());
    }
    while rest.len() > 0
        invariant
            input.len() == format_views(rest@).len() + format_views(out@).len(),
            format_views(rest@) == input.take(rest.len() as int),
            p.len() == out.len(),
            forall|k: int| 0 <= k < p.len() ==> rest.len() <= #[trigger] p[k] < input.len(),
            forall|k: int, l: int| 0 <= k < l < p.len() ==> p[k] != p[l],
            forall|k: int|
                0 <= k < p.len() ==> format_views(out@)[k] == input[#[trigger] p[k]],
            is_sorted(format_views(out@)),
            format_views(out@).to_multiset().add(format_views(rest@).to_multiset())
                == input.to_multiset(),
            forall|k: int, l: int|
                0 <= k < l < p.len() && format_order(format_views(out@)[k], format_views(out@)[l])
                    == 0 ==> p[k] < p[l],
        decreases rest.len(),
    {
        let ghost before = format_views(out@);
        let ghost rest_before = format_views(rest@);
        let ghost rest_vec = rest@;
        let x = rest.pop().unwrap();
        let i = rest.len();
        proof {
            assert(rest_vec[i as int] == x);
            assert(rest_before[i as int] == x@);
            assert(format_views(rest@) =~= rest_before.drop_last());
            assert(x@ == input[i as int]);
            assert(format_views(rest@) =~= input.take(i as int));
            assert(rest_before =~= format_views(rest@).push(x@));
            broadcast use vstd::seq_lib::group_to_multiset_ensures;
        }
        let mut k: usize = 0;
        while k < out.len() && format_order_exec(&x, &out[k]) > 0
            invariant
                k <= out.len(),
                before == format_views(out@),
                forall|j: int| 0 <= j < k ==> format_order(x@, before[j]) > 0,
            decreases out.len() - k,
        {
            k = k + 1;
        }
        let ghost xv = x@;
        out.insert(k, x);
        proof {
            let after = format_views(out@);
            assert(after =~= before.insert(k as int, xv));
            lemma_insert_to_multiset(before, k as int, xv);
            broadcast use vstd::multiset::group_multiset_axioms;
            assert(after.to_multiset().add(format_views(rest@).to_multiset()) =~= input.to_multiset());
            let p_old = p;
            p = p.insert(k as int, i as int);
            assert forall|a: int, b: int| 0 <= a < b < after.len() implies format_order(
                after[a],
                after[b],
            ) <= 0 by {
                if a < k && b == k {
                    lemma_format_order_total(after[a], xv);
                } else if a == k && b > k {
                    if b - 1 == k {
                        lemma_format_order_total(xv, before[k as int]);
                    } else {
                        assert(format_order(before[k as int], before[b - 1]) <= 0);
                        lemma_format_order_transitive(xv, before[k as int], before[b - 1]);
                    }
                } else if a < k && b > k {
                    assert(format_order(before[a], before[b - 1]) <= 0);
                } else if a > k {
                    assert(format_order(before[a - 1], before[b - 1]) <= 0);
                }
            }
            assert forall|a: int, b: int|
                0 <= a < b < p.len() && format_order(after[a], after[b]) == 0 implies p[a]
                < p[b] by {
                if a < k && b == k {
                    lemma_format_order_total(after[a], xv);
                } else if a == k && b > k {
                    assert(p[b] == p_old[b - 1]);
                } else if a < k && b > k {
                    assert(p[a] == p_old[a]);
                    assert(p[b] == p_old[b - 1]);
                } else if a > k {
                    assert(p[a] == p_old[a - 1]);
                    assert(p[b] == p_old[b - 1]);
                } else {
                    assert(p[a] == p_old[a]);
                    assert(p[b] == p_old[b]);
                }
            }
            assert forall|a: int| 0 <= a < p.len() implies after[a] == input[#[trigger] p[a]] by {
                if a < k {
                    assert(p[a] == p_old[a]);
                } else if a > k {
                    assert(p[a] == p_old[a - 1]);
                }
            }
            assert forall|a: int| 0 <= a < p.len() implies rest.len() <= #[trigger] p[a]
                < input.len() by {
                if a < k {
                    assert(p[a] == p_old[a]);
                } else if a > k {
                    assert(p[a] == p_old[a - 1]);
                }
            }
            assert forall|a: int, b: int| 0 <= a < b < p.len() implies p[a] != p[b] by {
                if a < k {
                    assert(p[a] == p_old[a]);
                } else if a > k {
                    assert(p[a] == p_old[a - 1]);
                }
                if b < k {
                    assert(p[b] == p_old[b]);
                } else if b > k {
                    assert(p[b] == p_old[b - 1]);
                }
            }
        }
    }
    assert(is_stable_sort_by(input, format_views(out@), p));
    proof {
        broadcast use vstd::seq_lib::group_to_multiset_ensures;
        broadcast use vstd::multiset::group_multiset_axioms;
        assert(format_views(rest@).len() == 0);
        assert(format_views(rest@).to_multiset() =~= Multiset::empty());
        assert(format_views(out@).to_multiset() =~= format_views(out@).to_multiset().add(Multiset::empty()));
    }
    out
}

} // verus!
