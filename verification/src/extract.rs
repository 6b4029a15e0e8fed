//! From a watch page to its list of formats.
//!
//! The page embeds the player response, a JSON document, as
//! `ytInitialPlayerResponse = {...};`. Its `playabilityStatus` says whether
//! the video can be played at all, and its `streamingData` lists the
//! progressive (`formats`) and adaptive (`adaptiveFormats`) streams.

use vstd::prelude::*;
use crate::format::{format_from_json, format_of, Format, FormatView};
use crate::json::{as_array, as_str, field, get, is_string, json_parse, parse_json, Json};
use crate::ordering::{format_views, is_stable_sort, is_stable_sort_by, sort_formats};
use crate::text::{
    after_first, append, before_first, chars_of, contains, contains_lit, eq_lit, find, find_lit,
    lemma_split_nonempty, occurs_at, slice, split, split_exec, string_of,
};

verus! {

/// The error type of the regular expression crate.
#[verifier::external_type_specification]
#[verifier::external_body]
pub struct ExRegexError(fancy_regex::Error);

/// Why no formats could be read from a page.
pub enum ExtractError {
    /// The regular expression engine failed.
    Regex(fancy_regex::Error),
    /// The page holds no player response.
    NoPlayerResponse,
    /// The player response is not JSON.
    Json(serde_json::Error),
    /// The video cannot be played; the message says why.
    Unavailable(String),
}

/// The text of a regular expression engine error (its `Display`).
///
/// Nothing is claimed of the text.
#[verifier::external_body]
fn regex_error_text(e: &fancy_regex::Error) -> String {
    e.to_string()
}

/// The text of a JSON parse error (its `Display`).
///
/// Nothing is claimed of the text.
#[verifier::external_body]
fn json_error_text(e: &serde_json::Error) -> String {
    e.to_string()
}

impl ExtractError {
    /// The message to show for the error: the engine's or the parser's own
    /// text for their failures, a fixed text for a page without a player
    /// response, and the refusal message for a video that cannot be played.
    pub fn message(&self) -> (r: String)
        ensures
            self matches ExtractError::NoPlayerResponse ==> r@
                == "ytInitialPlayerResponse not found in HTML"@,
            self matches ExtractError::Unavailable(m) ==> r@ == m@,
    {
        match self {
            ExtractError::Regex(e) => regex_error_text(e),
            ExtractError::NoPlayerResponse => string_of(
                chars_of("ytInitialPlayerResponse not found in HTML"),
            ),
            ExtractError::Json(e) => json_error_text(e),
            ExtractError::Unavailable(m) => string_of(chars_of(m.as_str())),
        }
    }
}

// ---------------------------------------------------------------------
// Finding the player response
// ---------------------------------------------------------------------

/// The pattern that finds the player response in a watch page: the
/// assignment to `ytInitialPlayerResponse`, its object up to the first
/// `};` that a `var` or the end of the script follows.
pub open spec fn player_response_pattern() -> Seq<char> {
    r#"ytInitialPlayerResponse\s*=\s*(\{.+?\});(?:var|</script>)"#@
}

/// What the regular expression `pattern` captures as its first group in
/// the first match in `text`: `None` when the engine refuses the pattern or
/// fails, `Some(None)` when nothing matches (or the group takes no part).
pub uninterp spec fn first_group_capture(pattern: Seq<char>, text: Seq<char>) -> Option<
    Option<Seq<char>>,
>;

/// What the player-response pattern captures in `html`.
pub open spec fn player_response_capture(html: Seq<char>) -> Option<Option<Seq<char>>> {
    first_group_capture(player_response_pattern(), html)
}

/// Compiles `pattern` with `fancy_regex::Regex::new` and returns the first
/// group of the first match in `text` (`Regex::captures`).
///
/// Claimed of the crate: the outcome depends on pattern and text alone;
/// a captured group is a piece of `text`; with the player-response pattern
/// it begins with `{`, ends with `}` and holds at least one character
/// between them. Which piece is found is not stated.
#[verifier::external_body]
fn capture_first_group(pattern: &str, text: &str) -> (r: Result<Option<String>, fancy_regex::Error>)
    ensures
        match r {
            Ok(Some(s)) => {
                &&& first_group_capture(pattern@, text@) == Some(Some(s@))
                &&& contains(text@, s@)
                &&& pattern@ == player_response_pattern() ==> {
                    &&& s@.len() >= 3
                    &&& s@[0] == '{'
                    &&& s@.last() == '}'
                }
            },
            Ok(None) => first_group_capture(pattern@, text@) == Some(None::<Seq<char>>),
            Err(_) => first_group_capture(pattern@, text@) is None,
        },
{
    let re = fancy_regex::Regex::new(pattern)?;
    match re.captures(text)? {
        Some(caps) => Ok(caps.get(1).map(|m| m.as_str().to_string())),
        None => Ok(None),
    }
}

/// The JSON text of the player response embedded in a watch page.
pub fn player_response_text(html: &str) -> (r: Result<String, ExtractError>)
    ensures
        match player_response_capture(html@) {
            Some(Some(text)) => r matches Ok(s) && s@ == text,
            Some(None) => r matches Err(ExtractError::NoPlayerResponse),
            None => r matches Err(ExtractError::Regex(_)),
        },
{
    let pattern = r#"ytInitialPlayerResponse\s*=\s*(\{.+?\});(?:var|</script>)"#;
    assert(pattern@ == player_response_pattern());
    match capture_first_group(pattern, html) {
        Ok(Some(s)) => Ok(s),
        Ok(None) => Err(ExtractError::NoPlayerResponse),
        Err(e) => Err(ExtractError::Regex(e)),
    }
}

// ---------------------------------------------------------------------
// Playability
// ---------------------------------------------------------------------

/// The id of the video that `url` names: what follows `v=` up to the next
/// `&`, or else the last path segment up to `?`.
pub open spec fn video_id(url: Seq<char>) -> Seq<char> {
    if find(url, "v="@) is Some {
        split(before_first(after_first(url, "v="@), "v="@), '&')[0]
    } else {
        split(split(url, '/').last(), '?')[0]
    }
}

/// The reason that a playability status gives, or `Unknown error`.
pub open spec fn reason_of(playability: Json) -> Seq<char> {
    match get(playability, "reason"@) {
        Some(r) => match as_str(r) {
            Some(t) => t,
            None => "Unknown error"@,
        },
        None => "Unknown error"@,
    }
}

/// The status and reason of a player response that refuses playback:
/// its `playabilityStatus.status` is `ERROR`, `LOGIN_REQUIRED` or
/// `UNPLAYABLE`.
pub open spec fn refusal(json: Json) -> Option<(Seq<char>, Seq<char>)> {
    match get(json, "playabilityStatus"@) {
        Some(p) => match get(p, "status"@) {
            Some(sv) => match as_str(sv) {
                Some(st) => if st == "ERROR"@ || st == "LOGIN_REQUIRED"@ || st == "UNPLAYABLE"@ {
                    Some((st, reason_of(p)))
                } else {
                    None
                },
                None => None,
            },
            None => None,
        },
        None => None,
    }
}

/// The message for a video that cannot be played; a login wall or a bot
/// check adds advice to pass cookies.
pub open spec fn refusal_message(url: Seq<char>, status: Seq<char>, reason: Seq<char>) -> Seq<char> {
    "ERROR: [youtube] "@ + video_id(url) + ": "@ + reason + if status == "LOGIN_REQUIRED"@
        || contains(reason, "bot"@) {
        ". Use --cookies for the authentication."@
    } else {
        Seq::<char>::empty()
    }
}

/// The id of the video that `url` names (see [`video_id`]).
pub fn video_id_exec(url: &Vec<char>) -> (r: Vec<char>)
    ensures
        r@ == video_id(url@),
{
    match find_lit(url, "v=") {
        Some(i) => {
            let marker = chars_of("v=");
            assert(occurs_at(url@, "v="@, i as int));
            assert(marker@.len() == "v="@.len());
            assert(i + marker@.len() <= url@.len());
            assert(i + marker.len() <= url.len());
            let rest = slice(url, i + marker.len(), url.len());
            proof {
                assert(rest@ == after_first(url@, "v="@));
            }
            let piece = match find_lit(&rest, "v=") {
                Some(j) => slice(&rest, 0, j),
                None => rest,
            };
            proof {
                assert(piece@ == before_first(after_first(url@, "v="@), "v="@));
                lemma_split_nonempty(piece@, '&');
            }
            let parts = split_exec(&piece, '&');
            let first = slice(&parts[0], 0, parts[0].len());
            assert(first@ =~= split(piece@, '&')[0]);
            first
        },
        None => {
            let segments = split_exec(url, '/');
            proof {
                lemma_split_nonempty(url@, '/');
            }
            let last = &segments[segments.len() - 1];
            assert(last@ == split(url@, '/').last());
            let parts = split_exec(last, '?');
            proof {
                lemma_split_nonempty(last@, '?');
            }
            let first = slice(&parts[0], 0, parts[0].len());
            assert(first@ =~= split(last@, '?')[0]);
            first
        },
    }
}

/// Whether the player response refuses playback, and if so with which
/// message (see [`refusal`] and [`refusal_message`]).
pub fn refusal_exec(json: &Json, url: &str) -> (r: Option<String>)
    ensures
        match refusal(*json) {
            Some((status, reason)) => r matches Some(m) && m@ == refusal_message(
                url@,
                status,
                reason,
            ),
            None => r is None,
        },
{
    let p = match json.get("playabilityStatus") {
        Some(p) => p,
        None => return None,
    };
    let status = match p.get("status") {
        Some(sv) => match sv.as_str() {
            Some(st) => st,
            None => return None,
        },
        None => return None,
    };
    let st = chars_of(status);
    let login = eq_lit(&st, "LOGIN_REQUIRED");
    if !(eq_lit(&st, "ERROR") || login || eq_lit(&st, "UNPLAYABLE")) {
        return None;
    }
    let reason = match p.get("reason") {
        Some(rv) => match rv.as_str() {
            Some(t) => chars_of(t),
            None => chars_of("Unknown error"),
        },
        None => chars_of("Unknown error"),
    };
    let u = chars_of(url);
    let mut m = chars_of("ERROR: [youtube] ");
    let id = video_id_exec(&u);
    append(&mut m, &id);
    let sep = chars_of(": ");
    append(&mut m, &sep);
    append(&mut m, &reason);
    if login || contains_lit(&reason, "bot") {
        let advice = chars_of(". Use --cookies for the authentication.");
        append(&mut m, &advice);
    } else {
        assert(m@ =~= m@ + Seq::<char>::empty());
    }
    Some(string_of(m))
}

// ---------------------------------------------------------------------
// Streams
// ---------------------------------------------------------------------

/// The entries of `streamingData[key]`, when that is an array.
pub open spec fn stream_entries(json: Json, key: Seq<char>) -> Seq<Json> {
    match get(json, "streamingData"@) {
        Some(sd) => match get(sd, key) {
            Some(v) => match as_array(v) {
                Some(a) => a,
                None => Seq::<Json>::empty(),
            },
            None => Seq::<Json>::empty(),
        },
        None => Seq::<Json>::empty(),
    }
}

/// The formats that a player response lists, progressive ones first, each
/// group in the order the document gives it.
pub open spec fn listed_formats(json: Json) -> Seq<FormatView> {
    stream_entries(json, "formats"@).map_values(|f: Json| format_of(f, false))
        + stream_entries(json, "adaptiveFormats"@).map_values(|f: Json| format_of(f, true))
}

/// Every entry of `streamingData.formats` and of
/// `streamingData.adaptiveFormats` gives exactly one format, whatever its
/// fields (a ciphered stream among them, noted `encrypted_signature`):
/// the listing has as many formats as the two arrays have entries, the
/// progressive ones first, each in its array's order, and so has every
/// sorted listing of them.
pub proof fn lemma_every_entry_listed(
    json: Json,
    sd: Json,
    progressive: Seq<Json>,
    adaptive: Seq<Json>,
)
    requires
        get(json, "streamingData"@) == Some(sd),
        get(sd, "formats"@) matches Some(v) && as_array(v) == Some(progressive),
        get(sd, "adaptiveFormats"@) matches Some(w) && as_array(w) == Some(adaptive),
    ensures
        listed_formats(json).len() == progressive.len() + adaptive.len(),
        forall|i: int|
            0 <= i < progressive.len() ==> listed_formats(json)[i] == format_of(
                #[trigger] progressive[i],
                false,
            ),
        forall|j: int|
            0 <= j < adaptive.len() ==> listed_formats(json)[progressive.len() + j] == format_of(
                #[trigger] adaptive[j],
                true,
            ),
        forall|j: int|
            0 <= j < adaptive.len() && is_string(field(#[trigger] adaptive[j], "signatureCipher"@))
                ==> listed_formats(json)[progressive.len() + j].note == "encrypted_signature"@,
        forall|out: Seq<FormatView>|
            #[trigger] is_stable_sort(listed_formats(json), out) ==> out.len() == progressive.len()
                + adaptive.len(),
{
    assert(stream_entries(json, "formats"@) == progressive);
    assert(stream_entries(json, "adaptiveFormats"@) == adaptive);
    assert forall|j: int|
        0 <= j < adaptive.len() && is_string(field(#[trigger] adaptive[j], "signatureCipher"@))
            implies listed_formats(json)[progressive.len() + j].note == "encrypted_signature"@ by {
        crate::format::lemma_format_fields(adaptive[j], true);
    }
    assert forall|out: Seq<FormatView>| #[trigger]
        is_stable_sort(listed_formats(json), out) implies out.len() == progressive.len()
        + adaptive.len() by {
        let p = choose|p: Seq<int>| is_stable_sort_by(listed_formats(json), out, p);
    }
}

/// Appends the formats of the entries of `streamingData[key]`.
fn push_entries(json: &Json, key: &str, adaptive: bool, out: &mut Vec<Format>)
    ensures
        format_views(final(out)@) == format_views(old(out)@) + stream_entries(
            *json,
            key@,
        ).map_values(|f: Json| format_of(f, adaptive)),
{
    let entries: &Vec<Json> = match json.get("streamingData") {
        Some(sd) => match sd.get(key) {
            Some(v) => match v.as_array() {
                Some(a) => a,
                None => {
                    assert(format_views(out@) =~= format_views(out@) + Seq::<FormatView>::empty());
                    return;
                },
            },
            None => {
                assert(format_views(out@) =~= format_views(out@) + Seq::<FormatView>::empty());
                return;
            },
        },
        None => {
            assert(format_views(out@) =~= format_views(out@) + Seq::<FormatView>::empty());
            return;
        },
    };
    let ghost start = format_views(out@);
    let ghost mapped = entries@.map_values(|f: Json| format_of(f, adaptive));
    assert(stream_entries(*json, key@) == entries@);
    let mut i: usize = 0;
    while i < entries.len()
        invariant
            i <= entries.len(),
            mapped == entries@.map_values(|f: Json| format_of(f, adaptive)),
            format_views(out@) == start + mapped.take(i as int),
        decreases entries.len() - i,
    {
        let f = format_from_json(&entries[i], adaptive);
        let ghost before = format_views(out@);
        out.push(f);
        proof {
            assert(format_views(out@) =~= before.push(f@));
            assert(mapped.take(i + 1) =~= mapped.take(i as int).push(mapped[i as int]));
        }
        i = i + 1;
    }
    assert(mapped.take(entries.len() as int) =~= mapped);
}

/// The formats of a player response, sorted worst first (see
/// [`crate::ordering::sort_key`]), or the refusal when the video cannot be
/// played.
pub fn formats_from_player_response(json: &Json, url: &str) -> (r: Result<Vec<Format>, ExtractError>)
    ensures
        match refusal(*json) {
            Some((status, reason)) => r matches Err(ExtractError::Unavailable(m)) && m@
                == refusal_message(url@, status, reason),
            None => r matches Ok(v) && is_stable_sort(listed_formats(*json), format_views(v@))
                && format_views(v@).to_multiset() == listed_formats(*json).to_multiset(),
        },
{
    if let Some(m) = refusal_exec(json, url) {
        return Err(ExtractError::Unavailable(m));
    }
    let mut found: Vec<Format> = Vec::new();
    push_entries(json, "formats", false, &mut found);
    push_entries(json, "adaptiveFormats", true, &mut found);
    assert(format_views(found@) =~= listed_formats(*json));
    Ok(sort_formats(found))
}

/// The formats that a watch page offers: its player response found,
/// parsed, and read as [`formats_from_player_response`] says.
pub fn formats_from_page(html: &str, url: &str) -> (r: Result<Vec<Format>, ExtractError>)
    ensures
        match player_response_capture(html@) {
            None => r matches Err(ExtractError::Regex(_)),
            Some(None) => r matches Err(ExtractError::NoPlayerResponse),
            Some(Some(text)) => match json_parse(text) {
                None => r matches Err(ExtractError::Json(_)),
                Some(json) => match refusal(json) {
                    Some((status, reason)) => r matches Err(ExtractError::Unavailable(m)) && m@
                        == refusal_message(url@, status, reason),
                    None => r matches Ok(v) && is_stable_sort(listed_formats(json), format_views(v@))
                        && format_views(v@).to_multiset() == listed_formats(json).to_multiset(),
                },
            },
        },
{
    let text = player_response_text(html)?;
    let json = match parse_json(text.as_str()) {
        Ok(j) => j,
        Err(e) => return Err(ExtractError::Json(e)),
    };
    formats_from_player_response(&json, url)
}

} // verus!
