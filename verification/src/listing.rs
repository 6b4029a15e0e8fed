//! The table that `--list-formats` prints: its cells and column widths.
//!
//! The bitrate cells (`TBR`, `VBR`, `ABR`) show kilobits per second
//! rounded to whole numbers; they are written by the caller and handed in.

use vstd::prelude::*;
use vstd::utf8::encode_utf8;
use crate::format::{Format, FormatView};
use crate::text::{
    append, chars_of, decimal, decimal_u64, eq_lit, starts_with, starts_with_lit, string_of,
};
use crate::utils::{format_size, format_size_spec};

verus! {

/// One line of the table, cell by cell.
pub struct ListingRow {
    pub id: String,
    pub ext: String,
    pub res: String,
    pub fps: String,
    pub ch: String,
    pub fs: String,
    pub tbr: String,
    pub proto: String,
    pub vcodec: String,
    pub vbr: String,
    pub acodec: String,
    pub abr: String,
    pub asr: String,
    pub more: String,
}

/// The video codec column: `audio only` for audio streams, `images` for a
/// stream without codecs.
pub open spec fn vcodec_label(v: Seq<char>) -> Seq<char> {
    if starts_with(v, "audio"@) {
        "audio only"@
    } else if v == "none"@ {
        "images"@
    } else {
        v
    }
}

/// The audio codec column: `video only` for video streams, blank for none.
pub open spec fn acodec_label(a: Seq<char>) -> Seq<char> {
    if starts_with(a, "video"@) {
        "video only"@
    } else if a == "none"@ {
        Seq::<char>::empty()
    } else {
        a
    }
}

/// The resolution column: blank for a stream with no codecs, `audio only`
/// for another stream without a resolution.
pub open spec fn resolution_label(f: FormatView) -> Seq<char> {
    if f.resolution.len() == 0 {
        if f.vcodec == "none"@ && f.acodec == "none"@ {
            Seq::<char>::empty()
        } else {
            "audio only"@
        }
    } else {
        f.resolution
    }
}

pub open spec fn optional_decimal(o: Option<u64>) -> Seq<char> {
    match o {
        Some(v) => decimal(v as nat),
        None => Seq::<char>::empty(),
    }
}

/// The sample rate column: whole kilohertz and `k`.
pub open spec fn asr_label(o: Option<u32>) -> Seq<char> {
    match o {
        Some(v) => decimal((v / 1000) as nat) + "k"@,
        None => Seq::<char>::empty(),
    }
}

/// The row for a format, given its bitrate cells.
pub open spec fn row_of(
    f: FormatView,
    tbr: Seq<char>,
    vbr: Seq<char>,
    abr: Seq<char>,
    r: ListingRow,
) -> bool {
    &&& r.id@ == f.format_id
    &&& r.ext@ == f.ext
    &&& r.res@ == resolution_label(f)
    &&& r.fps@ == optional_decimal(f.fps)
    &&& r.ch@ == optional_decimal(
        match f.ch {
            Some(c) => Some(c as u64),
            None => None,
        },
    )
    &&& r.fs@ == format_size_spec(f.filesize)
    &&& r.tbr@ == tbr
    &&& r.proto@ == f.protocol
    &&& r.vcodec@ == vcodec_label(f.vcodec)
    &&& r.vbr@ == vbr
    &&& r.acodec@ == acodec_label(f.acodec)
    &&& r.abr@ == abr
    &&& r.asr@ == asr_label(f.asr)
    &&& r.more@ == f.note
}

/// The cells of a row carry the format's own values: the `FPS` cell is the
/// decimal frame rate and blank without one, whatever the channel count;
/// the `CH` cell is the decimal channel count and blank without one; the
/// id, extension, protocol and note cells are the format's own texts.
pub proof fn lemma_row_cells(f: FormatView, tbr: Seq<char>, vbr: Seq<char>, abr: Seq<char>, r: ListingRow)
    requires
        row_of(f, tbr, vbr, abr, r),
    ensures
        match f.fps {
            Some(v) => r.fps@ == decimal(v as nat),
            None => r.fps@.len() == 0,
        },
        match f.ch {
            Some(c) => r.ch@ == decimal(c as nat),
            None => r.ch@.len() == 0,
        },
        r.id@ == f.format_id,
        r.ext@ == f.ext,
        r.proto@ == f.protocol,
        r.more@ == f.note,
        r.tbr@ == tbr,
        r.vbr@ == vbr,
        r.abr@ == abr,
{
}

fn optional_decimal_exec(o: Option<u64>) -> (r: String)
    ensures
        r@ == optional_decimal(o),
{
    match o {
        Some(v) => string_of(decimal_u64(v)),
        None => string_of(Vec::new()),
    }
}

fn copy_text(s: &String) -> (r: String)
    ensures
        r@ == s@,
{
    string_of(chars_of(s.as_str()))
}

/// The table row for a format (see [`row_of`]).
pub fn listing_row(f: &Format, tbr: String, vbr: String, abr: String) -> (r: ListingRow)
    ensures
        row_of(f@, tbr@, vbr@, abr@, r),
{
    let v = chars_of(f.vcodec.as_str());
    let a = chars_of(f.acodec.as_str());
    let vcodec = if starts_with_lit(&v, "audio") {
        chars_of("audio only")
    } else if eq_lit(&v, "none") {
        chars_of("images")
    } else {
        v
    };
    let v2 = chars_of(f.vcodec.as_str());
    let acodec = if starts_with_lit(&a, "video") {
        chars_of("video only")
    } else if eq_lit(&a, "none") {
        Vec::new()
    } else {
        a
    };
    let a2 = chars_of(f.acodec.as_str());
    let res_chars = chars_of(f.resolution.as_str());
    let res = if res_chars.len() == 0 {
        if eq_lit(&v2, "none") && eq_lit(&a2, "none") {
            Vec::new()
        } else {
            chars_of("audio only")
        }
    } else {
        res_chars
    };
    let ch = match f.ch {
        Some(c) => Some(c as u64),
        None => None,
    };
    let asr = match f.asr {
        Some(rate) => {
            let mut t = decimal_u64((rate / 1000) as u64);
            let k = chars_of("k");
            append(&mut t, &k);
            t
        },
        None => Vec::new(),
    };
    ListingRow {
        id: copy_text(&f.format_id),
        ext: copy_text(&f.ext),
        res: string_of(res),
        fps: optional_decimal_exec(f.fps),
        ch: optional_decimal_exec(ch),
        fs: format_size(f.filesize),
        tbr,
        proto: copy_text(&f.protocol),
        vcodec: string_of(vcodec),
        vbr,
        acodec: string_of(acodec),
        abr,
        asr: string_of(asr),
        more: copy_text(&f.note),
    }
}

// ---------------------------------------------------------------------
// Column widths
// ---------------------------------------------------------------------

/// The number of columns whose width depends on their cells (all but the
/// last, free-form one).
pub open spec fn measured_columns() -> nat {
    13
}

/// The cells of a row that set column widths, in column order.
pub open spec fn measured(r: ListingRow) -> Seq<Seq<char>> {
    seq![
        r.id@,
        r.ext@,
        r.res@,
        r.fps@,
        r.ch@,
        r.fs@,
        r.tbr@,
        r.proto@,
        r.vcodec@,
        r.vbr@,
        r.acodec@,
        r.abr@,
        r.asr@,
    ]
}

/// The width of each heading (`ID`, `EXT`, `RESOLUTION`, `FPS`, `CH`,
/// `FILESIZE`, `TBR`, `PROTO`, `VCODEC`, `VBR`, `ACODEC`, `ABR`, `ASR`).
pub open spec fn heading_widths() -> Seq<nat> {
    seq![2, 3, 10, 3, 2, 8, 3, 5, 6, 3, 6, 3, 3]
}

/// The length in bytes of a text, as `str::len` gives it.
pub open spec fn byte_len(s: Seq<char>) -> nat {
    (encode_utf8(s).len() as usize) as nat
}

/// The width of column `c`: its heading, or its longest cell in bytes.
pub open spec fn column_width(rows: Seq<ListingRow>, c: int) -> nat
    decreases rows.len(),
{
    if rows.len() == 0 {
        heading_widths()[c]
    } else {
        let before = column_width(rows.drop_last(), c);
        let here = byte_len(measured(rows.last())[c]);
        if here > before {
            here
        } else {
            before
        }
    }
}

/// The cells of a row that set column widths, with their lengths in bytes.
fn measured_lengths(r: &ListingRow) -> (l: Vec<usize>)
    ensures
        l@.len() == measured_columns(),
        forall|c: int| 0 <= c < 13 ==> l@[c] as nat == byte_len(#[trigger] measured(*r)[c]),
{
    let mut l: Vec<usize> = Vec::new();
    let n_id = r.id.as_str().len();
    assert(n_id as nat == byte_len(r.id@));
    l.push(n_id);
    let n_ext = r.ext.as_str().len();
    assert(n_ext as nat == byte_len(r.ext@));
    l.push(n_ext);
    let n_res = r.res.as_str().len();
    assert(n_res as nat == byte_len(r.res@));
    l.push(n_res);
    let n_fps = r.fps.as_str().len();
    assert(n_fps as nat == byte_len(r.fps@));
    l.push(n_fps);
    let n_ch = r.ch.as_str().len();
    assert(n_ch as nat == byte_len(r.ch@));
    l.push(n_ch);
    let n_fs = r.fs.as_str().len();
    assert(n_fs as nat == byte_len(r.fs@));
    l.push(n_fs);
    let n_tbr = r.tbr.as_str().len();
    assert(n_tbr as nat == byte_len(r.tbr@));
    l.push(n_tbr);
    let n_proto = r.proto.as_str().len();
    assert(n_proto as nat == byte_len(r.proto@));
    l.push(n_proto);
    let n_vcodec = r.vcodec.as_str().len();
    assert(n_vcodec as nat == byte_len(r.vcodec@));
    l.push(n_vcodec);
    let n_vbr = r.vbr.as_str().len();
    assert(n_vbr as nat == byte_len(r.vbr@));
    l.push(n_vbr);
    let n_acodec = r.acodec.as_str().len();
    assert(n_acodec as nat == byte_len(r.acodec@));
    l.push(n_acodec);
    let n_abr = r.abr.as_str().len();
    assert(n_abr as nat == byte_len(r.abr@));
    l.push(n_abr);
    let n_asr = r.asr.as_str().len();
    assert(n_asr as nat == byte_len(r.asr@));
    l.push(n_asr);
    let ghost m = measured(*r);
    assert(l@ =~= seq![n_id, n_ext, n_res, n_fps, n_ch, n_fs, n_tbr, n_proto, n_vcodec, n_vbr, n_acodec, n_abr, n_asr]);
    assert(m[0] == r.id@ && m[1] == r.ext@ && m[2] == r.res@ && m[3] == r.fps@ && m[4] == r.ch@);
    assert(m[5] == r.fs@ && m[6] == r.tbr@ && m[7] == r.proto@ && m[8] == r.vcodec@);
    assert(m[9] == r.vbr@ && m[10] == r.acodec@ && m[11] == r.abr@ && m[12] == r.asr@);
    assert forall|c: int| 0 <= c < 13 implies l@[c] as nat == byte_len(#[trigger] m[c]) by {
        if c == 0 {
        } else if c == 1 {
        } else if c == 2 {
        } else if c == 3 {
        } else if c == 4 {
        } else if c == 5 {
        } else if c == 6 {
        } else if c == 7 {
        } else if c == 8 {
        } else if c == 9 {
        } else if c == 10 {
        } else if c == 11 {
        } else {
        }
    }
    l
}

/// The width of each measured column (see [`column_width`]).
pub fn column_widths(rows: &Vec<ListingRow>) -> (w: Vec<usize>)
    ensures
        w@.len() == measured_columns(),
        forall|c: int| 0 <= c < 13 ==> w@[c] as nat == #[trigger] column_width(rows@, c),
{
    let mut w: Vec<usize> = Vec::new();
    w.push(2);
    w.push(3);
    w.push(10);
    w.push(3);
    w.push(2);
    w.push(8);
    w.push(3);
    w.push(5);
    w.push(6);
    w.push(3);
    w.push(6);
    w.push(3);
    w.push(3);
    let mut i: usize = 0;
    while i < rows.len()
        invariant
            i <= rows.len(),
            w@.len() == 13,
            forall|c: int| 0 <= c < 13 ==> w@[c] as nat == #[trigger] column_width(
                rows@.take(i as int),
                c,
            ),
        decreases rows.len() - i,
    {
        let lens = measured_lengths(&rows[i]);
        let ghost prev = w@;
        let mut c: usize = 0;
        while c < 13
            invariant
                c <= 13,
                w@.len() == 13,
                lens@.len() == 13,
                forall|k: int| 0 <= k < 13 ==> lens@[k] as nat == byte_len(#[trigger] measured(rows@[i as int])[k]),
                forall|k: int| c <= k < 13 ==> w@[k] == prev[k],
                forall|k: int| 0 <= k < c ==> w@[k] == if lens@[k] > prev[k] {
                    lens@[k]
                } else {
                    prev[k]
                },
            decreases 13 - c,
        {
            if lens[c] > w[c] {
                w.set(c, lens[c]);
            }
            c = c + 1;
        }
        proof {
            let t = rows@.take(i + 1);
            assert(t.drop_last() =~= rows@.take(i as int));
            assert(t.last() == rows@[i as int]);
            assert forall|k: int| 0 <= k < 13 implies w@[k] as nat == #[trigger] column_width(
                rows@.take(i + 1),
                k,
            ) by {
                assert(lens@[k] as nat == byte_len(measured(rows@[i as int])[k]));
                assert(prev[k] as nat == column_width(rows@.take(i as int), k));
            }
        }
        i = i + 1;
    }
    assert(rows@.take(rows.len() as int) =~= rows@);
    w
}

/// The sum of the first `n` widths.
pub open spec fn width_sum(w: Seq<usize>, n: int) -> nat
    decreases n,
{
    if n <= 0 {
        0
    } else {
        width_sum(w, n - 1) + w[n - 1] as nat
    }
}

/// The length of the rule under the heading: all measured columns, the
/// `MORE INFO` heading, the two column separators and the fifteen spaces
/// between columns.
pub open spec fn rule_width_spec(w: Seq<usize>) -> nat {
    width_sum(w, 13) + 9 + 2 + 15
}

/// The length of the rule under the heading (see [`rule_width_spec`]).
pub fn rule_width(w: &Vec<usize>) -> (r: usize)
    requires
        w@.len() == 13,
        rule_width_spec(w@) <= usize::MAX,
    ensures
        r as nat == rule_width_spec(w@),
{
    let mut total: usize = 0;
    let mut c: usize = 0;
    while c < 13
        invariant
            c <= 13,
            w@.len() == 13,
            total as nat == width_sum(w@, c as int),
            width_sum(w@, 13) + 26 <= usize::MAX,
        decreases 13 - c,
    {
        proof {
            lemma_width_sum_monotone(w@, c as int + 1, 13);
        }
        total = total + w[c];
        c = c + 1;
    }
    total + 26
}

proof fn lemma_width_sum_monotone(w: Seq<usize>, a: int, b: int)
    requires
        0 <= a <= b,
    ensures
        width_sum(w, a) <= width_sum(w, b),
    decreases b - a,
{
    if a < b {
        lemma_width_sum_monotone(w, a, b - 1);
    }
}

} // verus!
