//! Reading the container and codecs out of a stream's MIME type.

use vstd::prelude::*;
use crate::text::{
    chars_of, lemma_split_nonempty, slice, split, split_exec, starts_with, starts_with_lit,
    string_of, trim, trim_char, trim_char_exec, trim_exec, views,
};

verus! {

/// What a MIME type such as `video/mp4; codecs="avc1.42001E, mp4a.40.2"`
/// says of a stream: its extension (the subtype), its video codec and its
/// audio codec.
///
/// Without a `codecs=` parameter the video codec is `audio only` for an
/// `audio/` type and `none` otherwise, and the audio codec is `video only`
/// for a `video/` type and `none` otherwise. The codecs listed in the
/// parameter (comma-separated, quotes and whitespace removed) replace them:
/// the first one is the audio codec of an `audio/` type, and the video codec
/// of a `video/` type, whose second one (if any) is then its audio codec.
pub open spec fn mimetype_spec(mime: Seq<char>) -> (Seq<char>, Seq<char>, Seq<char>) {
    let parts = split(mime, ';');
    let mime_type = parts[0];
    let ext = split(mime_type, '/').last();
    let is_audio = starts_with(mime_type, "audio/"@);
    let is_video = starts_with(mime_type, "video/"@);
    let vcodec = if is_audio { "audio only"@ } else { "none"@ };
    let acodec = if is_video { "video only"@ } else { "none"@ };
    if parts.len() > 1 && starts_with(trim(parts[1]), "codecs="@) {
        let list = trim_char(trim(parts[1]).skip("codecs="@.len() as int), '"');
        let codecs = split(list, ',').map_values(|c: Seq<char>| trim(c));
        if is_audio {
            (ext, vcodec, codecs[0])
        } else if is_video {
            (ext, codecs[0], if codecs.len() > 1 { codecs[1] } else { acodec })
        } else {
            (ext, vcodec, acodec)
        }
    } else {
        (ext, vcodec, acodec)
    }
}

/// Splits a MIME type into extension, video codec and audio codec
/// (see [`mimetype_spec`]).
pub fn parse_mimetype(mime: &str) -> (r: (String, String, String))
    ensures
        (r.0@, r.1@, r.2@) == mimetype_spec(mime@),
{
    let m = chars_of(mime);
    let parts = split_exec(&m, ';');
    proof {
        lemma_split_nonempty(m@, ';');
    }
    let mime_type = &parts[0];
    let subtypes = split_exec(mime_type, '/');
    proof {
        lemma_split_nonempty(mime_type@, '/');
    }
    let ext = slice(&subtypes[subtypes.len() - 1], 0, subtypes[subtypes.len() - 1].len());
    assert(ext@ =~= split(mime_type@, '/').last());
    let is_audio = starts_with_lit(mime_type, "audio/");
    let is_video = starts_with_lit(mime_type, "video/");
    let mut vcodec = if is_audio {
        chars_of("audio only")
    } else {
        chars_of("none")
    };
    let mut acodec = if is_video {
        chars_of("video only")
    } else {
        chars_of("none")
    };
    if parts.len() > 1 {
        let param = trim_exec(&parts[1]);
        if starts_with_lit(&param, "codecs=") {
            let prefix_len = chars_of("codecs=").len();
            let rest = slice(&param, prefix_len, param.len());
            assert(rest@ =~= param@.skip("codecs="@.len() as int));
            let list = trim_char_exec(&rest, '"');
            let raw = split_exec(&list, ',');
            proof {
                lemma_split_nonempty(list@, ',');
            }
            let ghost spec_codecs = split(list@, ',').map_values(|c: Seq<char>| trim(c));
            if is_audio {
                acodec = trim_exec(&raw[0]);
            } else if is_video {
                vcodec = trim_exec(&raw[0]);
                if raw.len() > 1 {
                    acodec = trim_exec(&raw[1]);
                }
            }
            proof {
                assert(views(raw@)[0] == raw@[0]@);
                assert(spec_codecs[0] == trim(raw@[0]@));
                if raw.len() > 1 {
                    assert(views(raw@)[1] == raw@[1]@);
                    assert(spec_codecs[1] == trim(raw@[1]@));
                }
            }
        }
    }
    (string_of(ext), string_of(vcodec), string_of(acodec))
}

} // verus!
