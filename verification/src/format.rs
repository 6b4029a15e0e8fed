//! One downloadable stream of a video, as the player response describes it.

use vstd::prelude::*;
use crate::json::{as_i64, as_number, as_str, as_u64, field, is_string, Json, JsonNumber};
use crate::mime::{mimetype_spec, parse_mimetype};
use crate::text::{
    append, chars_of, decimal, decimal_i64, decimal_signed, decimal_u64, eq_lit, parse_unsigned,
    parse_unsigned_exec, string_of,
};

verus! {

/// A stream format.
///
/// The bitrates `tbr`, `vbr` and `abr` are the numbers that the player
/// response gives, in bits per second; the kilobit figures that a listing
/// shows and orders by are these, as doubles, divided by 1000.
#[derive(Debug)]
pub struct Format {
    pub format_id: String,
    pub ext: String,
    pub width: Option<u64>,
    pub height: Option<u64>,
    pub resolution: String,
    pub fps: Option<u64>,
    pub ch: Option<u8>,
    pub vcodec: String,
    pub vbr: Option<JsonNumber>,
    pub acodec: String,
    pub abr: Option<JsonNumber>,
    pub asr: Option<u32>,
    pub tbr: Option<JsonNumber>,
    pub protocol: String,
    pub filesize: Option<u64>,
    pub url: String,
    pub note: String,
}

/// A [`Format`] with its texts as character sequences.
pub struct FormatView {
    pub format_id: Seq<char>,
    pub ext: Seq<char>,
    pub width: Option<u64>,
    pub height: Option<u64>,
    pub resolution: Seq<char>,
    pub fps: Option<u64>,
    pub ch: Option<u8>,
    pub vcodec: Seq<char>,
    pub vbr: Option<JsonNumber>,
    pub acodec: Seq<char>,
    pub abr: Option<JsonNumber>,
    pub asr: Option<u32>,
    pub tbr: Option<JsonNumber>,
    pub protocol: Seq<char>,
    pub filesize: Option<u64>,
    pub url: Seq<char>,
    pub note: Seq<char>,
}

impl View for Format {
    type V = FormatView;

    open spec fn view(&self) -> FormatView {
        FormatView {
            format_id: self.format_id@,
            ext: self.ext@,
            width: self.width,
            height: self.height,
            resolution: self.resolution@,
            fps: self.fps,
            ch: self.ch,
            vcodec: self.vcodec@,
            vbr: self.vbr,
            acodec: self.acodec@,
            abr: self.abr,
            asr: self.asr,
            tbr: self.tbr,
            protocol: self.protocol@,
            filesize: self.filesize,
            url: self.url@,
            note: self.note@,
        }
    }
}

/// A text field of a stream, or nothing.
pub open spec fn text_or_empty(j: Json) -> Seq<char> {
    match as_str(j) {
        Some(s) => s,
        None => Seq::<char>::empty(),
    }
}

/// A decimal text field of a stream, read as an unsigned integer no larger
/// than `max`.
pub open spec fn decimal_field(j: Json, max: nat) -> Option<nat> {
    match as_str(j) {
        Some(s) => parse_unsigned(s, max),
        None => None,
    }
}

/// `WIDTHxHEIGHT` when both are known, else nothing.
pub open spec fn resolution_of(width: Option<u64>, height: Option<u64>) -> Seq<char> {
    match (width, height) {
        (Some(w), Some(h)) => decimal(w as nat) + seq!['x'] + decimal(h as nat),
        _ => Seq::<char>::empty(),
    }
}

/// The format that one entry of `formats` (`adaptive` false) or of
/// `adaptiveFormats` (`adaptive` true) describes.
///
/// Video bitrate belongs to streams with video, audio bitrate to streams
/// with audio: an audio-only stream's audio bitrate is its total bitrate,
/// and a stream that carries both has neither, only a total.
pub open spec fn format_of(f: Json, adaptive: bool) -> FormatView {
    let itag = match as_i64(field(f, "itag"@)) {
        Some(n) => n as int,
        None => 0,
    };
    let parsed = mimetype_spec(text_or_empty(field(f, "mimeType"@)));
    let ext = parsed.0;
    let vcodec = parsed.1;
    let acodec = parsed.2;
    let width = as_u64(field(f, "width"@));
    let height = as_u64(field(f, "height"@));
    let tbr = as_number(field(f, "bitrate"@));
    let no_video = vcodec == "none"@ || vcodec == "images"@ || vcodec == "audio only"@;
    let vbr_first = if no_video {
        None
    } else {
        as_number(field(f, "averageBitrate"@))
    };
    let has_audio = acodec != "none"@ && acodec != "video only"@;
    let abr_first = if !has_audio {
        None
    } else if vcodec == "none"@ || vcodec == "audio only"@ {
        tbr
    } else if is_string(field(f, "audioSampleRate"@)) {
        vbr_first
    } else {
        None
    };
    let combined = vcodec != "none"@ && vcodec != "audio only"@ && has_audio;
    FormatView {
        format_id: decimal_signed(itag),
        ext,
        width,
        height,
        resolution: resolution_of(width, height),
        fps: as_u64(field(f, "fps"@)),
        ch: match as_u64(field(f, "audioChannels"@)) {
            Some(c) => Some((c % 256) as u8),
            None => None,
        },
        vcodec,
        vbr: if combined {
            None
        } else {
            vbr_first
        },
        acodec,
        abr: if combined {
            None
        } else {
            abr_first
        },
        asr: match decimal_field(field(f, "audioSampleRate"@), u32::MAX as nat) {
            Some(v) => Some(v as u32),
            None => None,
        },
        tbr,
        protocol: "https"@,
        filesize: match decimal_field(field(f, "contentLength"@), u64::MAX as nat) {
            Some(v) => Some(v as u64),
            None => None,
        },
        url: text_or_empty(field(f, "url"@)),
        note: if is_string(field(f, "signatureCipher"@)) {
            "encrypted_signature"@
        } else if adaptive {
            ext + "_dash"@
        } else {
            Seq::<char>::empty()
        },
    }
}

/// Which fields of a stream entry a format takes over as they stand: its
/// width is the entry's `width` and its height the entry's `height` (each
/// read as an unsigned integer), its resolution is `WIDTHxHEIGHT` of those
/// two when both are there and blank otherwise, its frame rate is `fps`,
/// its total bitrate is `bitrate`, its url is `url`, its id is the decimal
/// `itag`, it is fetched over `https`, and an entry with a
/// `signatureCipher` is noted as `encrypted_signature`.
pub proof fn lemma_format_fields(f: Json, adaptive: bool)
    ensures
        format_of(f, adaptive).width == as_u64(field(f, "width"@)),
        format_of(f, adaptive).height == as_u64(field(f, "height"@)),
        match (as_u64(field(f, "width"@)), as_u64(field(f, "height"@))) {
            (Some(w), Some(h)) => format_of(f, adaptive).resolution == decimal(w as nat) + "x"@
                + decimal(h as nat),
            _ => format_of(f, adaptive).resolution.len() == 0,
        },
        format_of(f, adaptive).fps == as_u64(field(f, "fps"@)),
        format_of(f, adaptive).tbr == as_number(field(f, "bitrate"@)),
        match as_str(field(f, "url"@)) {
            Some(u) => format_of(f, adaptive).url == u,
            None => format_of(f, adaptive).url.len() == 0,
        },
        match as_i64(field(f, "itag"@)) {
            Some(n) => format_of(f, adaptive).format_id == decimal_signed(n as int),
            None => format_of(f, adaptive).format_id == "0"@,
        },
        format_of(f, adaptive).protocol == "https"@,
        is_string(field(f, "signatureCipher"@)) ==> format_of(f, adaptive).note
            == "encrypted_signature"@,
{
    reveal_strlit("x");
    reveal_strlit("0");
    assert(decimal(0) == seq!['0']);
    let g = format_of(f, adaptive);
    match (as_u64(field(f, "width"@)), as_u64(field(f, "height"@))) {
        (Some(w), Some(h)) => {
            assert(g.resolution == decimal(w as nat) + seq!['x'] + decimal(h as nat));
            assert("x"@ =~= seq!['x']);
        },
        _ => {},
    }
    assert("0"@ =~= seq!['0']);
}

/// The text of a field, or nothing.
fn text_field(f: &Json, key: &str) -> (r: Vec<char>)
    ensures
        r@ == text_or_empty(field(*f, key@)),
{
    match f.field(key).as_str() {
        Some(s) => chars_of(s),
        None => Vec::new(),
    }
}

/// A decimal text field read as an unsigned integer no larger than `max`.
fn decimal_field_exec(f: &Json, key: &str, max: u64) -> (r: Option<u64>)
    ensures
        match r {
            Some(v) => decimal_field(field(*f, key@), max as nat) == Some(v as nat),
            None => decimal_field(field(*f, key@), max as nat) is None,
        },
{
    match f.field(key).as_str() {
        Some(s) => {
            let c = chars_of(s);
            parse_unsigned_exec(&c, max)
        },
        None => None,
    }
}

/// Builds the format that one stream entry describes (see [`format_of`]).
pub fn format_from_json(f: &Json, adaptive: bool) -> (r: Format)
    ensures
        r@ == format_of(*f, adaptive),
{
    let itag: i64 = match f.field("itag").as_i64() {
        Some(n) => n,
        None => 0,
    };
    let format_id = decimal_i64(itag);
    let mime = string_of(text_field(f, "mimeType"));
    let (ext, vcodec, acodec) = parse_mimetype(mime.as_str());
    let v = chars_of(vcodec.as_str());
    let a = chars_of(acodec.as_str());
    let width = f.field("width").as_u64();
    let height = f.field("height").as_u64();
    let resolution = match (width, height) {
        (Some(w), Some(h)) => {
            let mut r = decimal_u64(w);
            r.push('x');
            let hd = decimal_u64(h);
            append(&mut r, &hd);
            r
        },
        _ => Vec::new(),
    };
    let tbr = f.field("bitrate").as_number();
    let no_video = eq_lit(&v, "none") || eq_lit(&v, "images") || eq_lit(&v, "audio only");
    let vbr_first = if no_video {
        None
    } else {
        f.field("averageBitrate").as_number()
    };
    let has_audio = !eq_lit(&a, "none") && !eq_lit(&a, "video only");
    let abr_first = if !has_audio {
        None
    } else if eq_lit(&v, "none") || eq_lit(&v, "audio only") {
        tbr
    } else if f.field("audioSampleRate").is_string() {
        vbr_first
    } else {
        None
    };
    let combined = !eq_lit(&v, "none") && !eq_lit(&v, "audio only") && has_audio;
    let ch = match f.field("audioChannels").as_u64() {
        Some(c) => Some((c % 256) as u8),
        None => None,
    };
    let asr = match decimal_field_exec(f, "audioSampleRate", 0xffff_ffffu64) {
        Some(n) => Some(n as u32),
        None => None,
    };
    let filesize = decimal_field_exec(f, "contentLength", 0xffff_ffff_ffff_ffffu64);
    let note = if f.field("signatureCipher").is_string() {
        chars_of("encrypted_signature")
    } else if adaptive {
        let mut n = chars_of(ext.as_str());
        let suffix = chars_of("_dash");
        append(&mut n, &suffix);
        n
    } else {
        Vec::new()
    };
    let r = Format {
        format_id: string_of(format_id),
        ext,
        width,
        height,
        resolution: string_of(resolution),
        fps: f.field("fps").as_u64(),
        ch,
        vcodec,
        vbr: if combined {
            None
        } else {
            vbr_first
        },
        acodec,
        abr: if combined {
            None
        } else {
            abr_first
        },
        asr,
        tbr,
        protocol: string_of(chars_of("https")),
        filesize,
        url: string_of(text_field(f, "url")),
        note: string_of(note),
    };
    let ghost g = format_of(*f, adaptive);
    assert(r@.format_id == g.format_id);
    assert(r@.ext == g.ext);
    assert(r@.resolution == g.resolution);
    assert(r@.ch == g.ch);
    assert(r@.vcodec == g.vcodec);
    assert(r@.vbr == g.vbr);
    assert(r@.abr == g.abr);
    assert(r@.asr == g.asr);
    assert(r@.filesize == g.filesize);
    assert(r@.url == g.url);
    assert(r@.note == g.note);
    assert(r@.protocol == g.protocol);
    r
}

} // verus!
