use yt_dlp_rs::extract::{formats_from_player_response, player_response_text, ExtractError};
use yt_dlp_rs::format::{format_from_json, Format};
use yt_dlp_rs::json::{Json, JsonNumber};
use yt_dlp_rs::listing::{column_widths, listing_row, rule_width};
use yt_dlp_rs::ordering::sort_formats;

fn s(t: &str) -> Json {
    Json::Str(t.to_string())
}

fn n(v: u64) -> Json {
    Json::Number(JsonNumber::PosInt(v))
}

fn obj(members: Vec<(&str, Json)>) -> Json {
    Json::Object(members.into_iter().map(|(k, v)| (k.to_string(), v)).collect())
}

fn video_entry(itag: u64, mime: &str, w: u64, h: u64, bitrate: u64) -> Json {
    obj(vec![
        ("itag", n(itag)),
        ("mimeType", s(mime)),
        ("width", n(w)),
        ("height", n(h)),
        ("bitrate", n(bitrate)),
        ("averageBitrate", n(bitrate - 1000)),
        ("fps", n(30)),
        ("contentLength", s("1048576")),
        ("url", s("https://example.invalid/v")),
    ])
}

fn audio_entry(itag: u64, mime: &str, bitrate: u64) -> Json {
    obj(vec![
        ("itag", n(itag)),
        ("mimeType", s(mime)),
        ("bitrate", n(bitrate)),
        ("averageBitrate", n(bitrate - 500)),
        ("audioSampleRate", s("48000")),
        ("audioChannels", n(2)),
    ])
}

fn response(formats: Vec<Json>, adaptive: Vec<Json>) -> Json {
    obj(vec![
        ("playabilityStatus", obj(vec![("status", s("OK"))])),
        (
            "streamingData",
            obj(vec![("formats", Json::Array(formats)), ("adaptiveFormats", Json::Array(adaptive))]),
        ),
    ])
}

fn refused(status: &str, reason: Option<&str>) -> Json {
    let mut members = vec![("status", s(status))];
    if let Some(r) = reason {
        members.push(("reason", s(r)));
    }
    obj(vec![("playabilityStatus", obj(members))])
}

fn unavailable_message(r: Result<Vec<Format>, ExtractError>) -> String {
    match r {
        Err(ExtractError::Unavailable(m)) => m,
        _ => panic!("expected a refusal"),
    }
}

#[test]
fn combined_stream_fields() {
    let f = format_from_json(&video_entry(18, "video/mp4; codecs=\"avc1.42001E, mp4a.40.2\"", 640, 360, 500000), false);
    assert_eq!(f.format_id, "18");
    assert_eq!(f.ext, "mp4");
    assert_eq!(f.resolution, "640x360");
    assert_eq!(f.vcodec, "avc1.42001E");
    assert_eq!(f.acodec, "mp4a.40.2");
    assert_eq!(f.tbr, Some(JsonNumber::PosInt(500000)));
    assert_eq!(f.vbr, None);
    assert_eq!(f.abr, None);
    assert_eq!(f.fps, Some(30));
    assert_eq!(f.filesize, Some(1048576));
    assert_eq!(f.protocol, "https");
    assert_eq!(f.note, "");
}

#[test]
fn adaptive_streams_fields() {
    let v = format_from_json(&video_entry(137, "video/mp4; codecs=\"avc1.640028\"", 1920, 1080, 4000000), true);
    assert_eq!(v.acodec, "video only");
    assert_eq!(v.vbr, Some(JsonNumber::PosInt(3999000)));
    assert_eq!(v.abr, None);
    assert_eq!(v.note, "mp4_dash");
    let a = format_from_json(&audio_entry(251, "audio/webm; codecs=\"opus\"", 160000), true);
    assert_eq!(a.vcodec, "audio only");
    assert_eq!(a.acodec, "opus");
    assert_eq!(a.abr, Some(JsonNumber::PosInt(160000)));
    assert_eq!(a.vbr, None);
    assert_eq!(a.asr, Some(48000));
    assert_eq!(a.ch, Some(2));
    assert_eq!(a.resolution, "");
    assert_eq!(a.note, "webm_dash");
}

#[test]
fn ciphered_and_odd_fields() {
    let f = obj(vec![
        ("itag", Json::Number(JsonNumber::NegInt(-5))),
        ("signatureCipher", s("s=abc")),
        ("audioChannels", n(258)),
        ("contentLength", s("+12")),
        ("audioSampleRate", s("4294967296")),
    ]);
    let r = format_from_json(&f, true);
    assert_eq!(r.format_id, "-5");
    assert_eq!(r.note, "encrypted_signature");
    assert_eq!(r.ch, Some(2));
    assert_eq!(r.filesize, Some(12));
    assert_eq!(r.asr, None);
    let missing = format_from_json(&obj(vec![]), false);
    assert_eq!(missing.format_id, "0");
    assert_eq!(missing.ext, "");
}

#[test]
fn listing_order_worst_first() {
    let json = response(
        vec![video_entry(18, "video/mp4; codecs=\"avc1.42001E, mp4a.40.2\"", 640, 360, 500000)],
        vec![
            video_entry(137, "video/mp4; codecs=\"avc1.640028\"", 1920, 1080, 4000000),
            audio_entry(251, "audio/webm; codecs=\"opus\"", 160000),
            video_entry(248, "video/webm; codecs=\"vp9\"", 1920, 1080, 3000000),
            audio_entry(140, "audio/mp4; codecs=\"mp4a.40.2\"", 130000),
            video_entry(134, "video/mp4; codecs=\"avc1.4d401e\"", 640, 360, 400000),
        ],
    );
    let formats = match formats_from_player_response(&json, "https://www.youtube.com/watch?v=abc") {
        Ok(f) => f,
        Err(_) => panic!("expected formats"),
    };
    let ids: Vec<&str> = formats.iter().map(|f| f.format_id.as_str()).collect();
    assert_eq!(ids, vec!["140", "251", "134", "18", "137", "248"]);
}

#[test]
fn sorting_keeps_equal_formats_in_order() {
    let a = format_from_json(&obj(vec![("itag", n(7)), ("url", s("first"))]), false);
    let b = format_from_json(&obj(vec![("itag", n(7)), ("url", s("second"))]), false);
    let c = format_from_json(&obj(vec![("itag", n(6))]), false);
    let sorted = sort_formats(vec![a, b, c]);
    let urls: Vec<(&str, &str)> = sorted.iter().map(|f| (f.format_id.as_str(), f.url.as_str())).collect();
    assert_eq!(urls, vec![("6", ""), ("7", "first"), ("7", "second")]);
}

#[test]
fn sorting_a_sorted_listing_changes_nothing() {
    let json = response(
        vec![video_entry(18, "video/mp4; codecs=\"avc1.42001E, mp4a.40.2\"", 640, 360, 500000)],
        vec![
            audio_entry(251, "audio/webm; codecs=\"opus\"", 160000),
            video_entry(137, "video/mp4; codecs=\"avc1.640028\"", 1920, 1080, 4000000),
            audio_entry(140, "audio/mp4; codecs=\"mp4a.40.2\"", 130000),
        ],
    );
    let once = match formats_from_player_response(&json, "x") {
        Ok(f) => f,
        Err(_) => panic!("expected formats"),
    };
    let ids_once: Vec<String> = once.iter().map(|f| f.format_id.clone()).collect();
    let twice = sort_formats(once);
    let ids_twice: Vec<String> = twice.iter().map(|f| f.format_id.clone()).collect();
    assert_eq!(ids_once, vec!["140", "251", "18", "137"]);
    assert_eq!(ids_once, ids_twice);
}

#[test]
fn refusal_messages() {
    let url = "https://www.youtube.com/watch?v=dQw4w9WgXcQ&t=10";
    assert_eq!(
        unavailable_message(formats_from_player_response(&refused("ERROR", Some("Video unavailable")), url)),
        "ERROR: [youtube] dQw4w9WgXcQ: Video unavailable"
    );
    assert_eq!(
        unavailable_message(formats_from_player_response(&refused("LOGIN_REQUIRED", None), "https://youtu.be/xyz?si=1")),
        "ERROR: [youtube] xyz: Unknown error. Use --cookies for the authentication."
    );
    assert_eq!(
        unavailable_message(formats_from_player_response(&refused("UNPLAYABLE", Some("Sign in to confirm you're not a bot")), url)),
        "ERROR: [youtube] dQw4w9WgXcQ: Sign in to confirm you're not a bot. Use --cookies for the authentication."
    );
    assert!(formats_from_player_response(&refused("OK", Some("fine")), url).is_ok());
}

#[test]
fn no_streaming_data_gives_no_formats() {
    let r = formats_from_player_response(&obj(vec![]), "x");
    assert!(matches!(r, Ok(ref v) if v.is_empty()));
}

#[test]
fn player_response_found_in_page() {
    let html = "<script>var ytInitialPlayerResponse = {\"a\":{\"b\":1}};var meta = 1;</script>";
    match player_response_text(html) {
        Ok(t) => assert_eq!(t, "{\"a\":{\"b\":1}}"),
        Err(_) => panic!("expected the player response"),
    }
    let end = "ytInitialPlayerResponse={\"x\":[1]};</script>";
    match player_response_text(end) {
        Ok(t) => assert_eq!(t, "{\"x\":[1]}"),
        Err(_) => panic!("expected the player response"),
    }
}

#[test]
fn player_response_missing() {
    assert!(matches!(player_response_text("<html></html>"), Err(ExtractError::NoPlayerResponse)));
}

#[test]
fn listing_cells_and_widths() {
    let a = format_from_json(&audio_entry(251, "audio/webm; codecs=\"opus\"", 160000), true);
    let row = listing_row(&a, "160k".to_string(), "".to_string(), "160k".to_string());
    assert_eq!(row.id, "251");
    assert_eq!(row.res, "audio only");
    assert_eq!(row.vcodec, "audio only");
    assert_eq!(row.acodec, "opus");
    assert_eq!(row.asr, "48k");
    assert_eq!(row.ch, "2");
    assert_eq!(row.fs, "~       ");
    assert_eq!(row.more, "webm_dash");
    let empty = format_from_json(&obj(vec![]), false);
    let row2 = listing_row(&empty, String::new(), String::new(), String::new());
    assert_eq!(row2.res, "");
    assert_eq!(row2.vcodec, "images");
    assert_eq!(row2.acodec, "");
    let widths = column_widths(&vec![row, row2]);
    assert_eq!(widths, vec![3, 4, 10, 3, 2, 8, 4, 5, 10, 3, 6, 4, 3]);
    assert_eq!(rule_width(&widths), 65 + 26);
    assert_eq!(column_widths(&vec![]), vec![2, 3, 10, 3, 2, 8, 3, 5, 6, 3, 6, 3, 3]);
}

#[test]
fn float_and_negative_bitrates_are_kept() {
    let f = obj(vec![
        ("mimeType", s("audio/mp4; codecs=\"mp4a.40.2\"")),
        ("bitrate", Json::Number(JsonNumber::Float(130000.5f64.to_bits()))),
        ("averageBitrate", Json::Number(JsonNumber::NegInt(-7))),
    ]);
    let a = format_from_json(&f, false);
    assert_eq!(a.tbr, Some(JsonNumber::Float(130000.5f64.to_bits())));
    assert_eq!(a.abr, Some(JsonNumber::Float(130000.5f64.to_bits())));
    assert_eq!(a.vbr, None);
    let v = obj(vec![
        ("mimeType", s("video/mp4; codecs=\"avc1\"")),
        ("bitrate", Json::Number(JsonNumber::NegInt(-3))),
        ("averageBitrate", Json::Number(JsonNumber::Float(2.5f64.to_bits()))),
    ]);
    let b = format_from_json(&v, false);
    assert_eq!(b.tbr, Some(JsonNumber::NegInt(-3)));
    assert_eq!(b.vbr, Some(JsonNumber::Float(2.5f64.to_bits())));
}

#[test]
fn extract_error_messages() {
    assert_eq!(ExtractError::NoPlayerResponse.message(), "ytInitialPlayerResponse not found in HTML");
    assert_eq!(ExtractError::Unavailable("gone".to_string()).message(), "gone");
}

#[test]
fn formats_from_a_page() {
    let html = "<script>var ytInitialPlayerResponse = {\"playabilityStatus\":{\"status\":\"OK\"},\"streamingData\":{\"formats\":[{\"itag\":18,\"mimeType\":\"video/mp4; codecs=\\\"avc1.42001E, mp4a.40.2\\\"\",\"width\":640,\"height\":360,\"bitrate\":500000.5}],\"adaptiveFormats\":[{\"itag\":140,\"mimeType\":\"audio/mp4; codecs=\\\"mp4a.40.2\\\"\",\"bitrate\":130000}]}};var x;</script>";
    let formats = match yt_dlp_rs::extract::formats_from_page(html, "https://www.youtube.com/watch?v=a") {
        Ok(f) => f,
        Err(e) => panic!("{}", e.message()),
    };
    let ids: Vec<&str> = formats.iter().map(|f| f.format_id.as_str()).collect();
    assert_eq!(ids, vec!["140", "18"]);
    assert_eq!(formats[1].tbr, Some(JsonNumber::Float(500000.5f64.to_bits())));
    assert_eq!(formats[0].note, "mp4_dash");
}

#[test]
fn page_errors() {
    let bad_json = "ytInitialPlayerResponse = {oops};var";
    assert!(matches!(yt_dlp_rs::extract::formats_from_page(bad_json, "x"), Err(ExtractError::Json(_))));
    assert!(matches!(yt_dlp_rs::extract::formats_from_page("<html/>", "x"), Err(ExtractError::NoPlayerResponse)));
    let refused = "ytInitialPlayerResponse = {\"playabilityStatus\":{\"status\":\"ERROR\",\"reason\":\"Gone\"}};var";
    match yt_dlp_rs::extract::formats_from_page(refused, "https://youtu.be/q1") {
        Err(e) => assert_eq!(e.message(), "ERROR: [youtube] q1: Gone"),
        Ok(_) => panic!("expected a refusal"),
    }
}
