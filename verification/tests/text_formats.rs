use yt_dlp_rs::agent::{chrome_user_agent, random_user_agent};
use yt_dlp_rs::cli::{error_detail, url_tail, Cli};
use yt_dlp_rs::cookies::parse_netscape_cookies;
use yt_dlp_rs::mime::parse_mimetype;
use yt_dlp_rs::utils::{dim_if_only, format_size};

fn triple(a: &str, b: &str, c: &str) -> (String, String, String) {
    (a.to_string(), b.to_string(), c.to_string())
}

#[test]
fn mimetype_video_with_two_codecs() {
    assert_eq!(
        parse_mimetype("video/mp4; codecs=\"avc1.42001E, mp4a.40.2\""),
        triple("mp4", "avc1.42001E", "mp4a.40.2")
    );
}

#[test]
fn mimetype_video_only() {
    assert_eq!(
        parse_mimetype("video/webm; codecs=\"vp9\""),
        triple("webm", "vp9", "video only")
    );
}

#[test]
fn mimetype_audio() {
    assert_eq!(
        parse_mimetype("audio/webm; codecs=\"opus\""),
        triple("webm", "audio only", "opus")
    );
}

#[test]
fn mimetype_without_codecs() {
    assert_eq!(parse_mimetype("audio/mp4"), triple("mp4", "audio only", "none"));
    assert_eq!(parse_mimetype("video/mp4"), triple("mp4", "none", "video only"));
    assert_eq!(parse_mimetype("text/plain"), triple("plain", "none", "none"));
    assert_eq!(parse_mimetype(""), triple("", "none", "none"));
}

#[test]
fn mimetype_other_parameter_is_ignored() {
    assert_eq!(
        parse_mimetype("video/mp4; charset=utf-8"),
        triple("mp4", "none", "video only")
    );
}

#[test]
fn cookies_keeps_youtube_and_google_lines() {
    let file = "# Netscape HTTP Cookie File\n\
                \n\
                .youtube.com\tTRUE\t/\tTRUE\t0\tSID\tabc \n\
                #HttpOnly_.google.com\tTRUE\t/\tTRUE\t0\tHSID\t def\r\n\
                .example.com\tTRUE\t/\tTRUE\t0\tOTHER\tx\n\
                .youtube.com\tTRUE\t/\n\
                # .youtube.com\tTRUE\t/\tTRUE\t0\tHIDDEN\ty\n";
    assert_eq!(parse_netscape_cookies(file), "SID=abc; HSID=def");
}

#[test]
fn cookies_empty_file() {
    assert_eq!(parse_netscape_cookies(""), "");
    assert_eq!(parse_netscape_cookies("# only a comment\n"), "");
}

#[test]
fn size_unknown_and_bytes() {
    assert_eq!(format_size(None), "~       ");
    assert_eq!(format_size(Some(0)), "0B");
    assert_eq!(format_size(Some(1023)), "1023B");
}

#[test]
fn size_binary_units() {
    assert_eq!(format_size(Some(1024)), "1.00KiB");
    assert_eq!(format_size(Some(1536)), "1.50KiB");
    assert_eq!(format_size(Some(1048576)), "1.00MiB");
    assert_eq!(format_size(Some(5 * 1073741824)), "5.00GiB");
    assert_eq!(format_size(Some(123456789)), "117.74MiB");
}

#[test]
fn size_rounds_half_to_even() {
    // 1152 / 1024 = 1.125 and 1408 / 1024 = 1.375 exactly
    assert_eq!(format_size(Some(1152)), "1.12KiB");
    assert_eq!(format_size(Some(1408)), "1.38KiB");
}

#[test]
fn size_matches_float_formatting() {
    for b in [1u64, 1000, 1024, 2047, 99_999, 1 << 20, 3_333_333, 1 << 33, u64::MAX, (1 << 53) + 1] {
        let bf = b as f64;
        let expected = if bf >= 1073741824.0 {
            format!("{:.2}GiB", bf / 1073741824.0)
        } else if bf >= 1048576.0 {
            format!("{:.2}MiB", bf / 1048576.0)
        } else if bf >= 1024.0 {
            format!("{:.2}KiB", bf / 1024.0)
        } else {
            format!("{}B", b)
        };
        assert_eq!(format_size(Some(b)), expected);
    }
}

#[test]
fn dim_only_cells() {
    colored::control::set_override(true);
    assert_eq!(dim_if_only("audio only"), "\x1b[90maudio only\x1b[0m");
    assert_eq!(dim_if_only("mp4"), "mp4");
    colored::control::set_override(false);
    assert_eq!(dim_if_only("video only"), "video only");
    colored::control::unset_override();
}

#[test]
fn user_agent_text() {
    assert_eq!(
        chrome_user_agent(140),
        "Mozilla/5.0 (Windows NT 10.0; Win64; x64) AppleWebKit/537.36 (KHTML, like Gecko) Chrome/140.0.0.0 Safari/537.36"
    );
    let ua = random_user_agent();
    let major: u32 = ua.split("Chrome/").nth(1).unwrap().split('.').next().unwrap().parse().unwrap();
    assert!((137..=143).contains(&major));
}

#[test]
fn cli_helpers() {
    assert_eq!(url_tail("https://www.youtube.com/watch?v=abc"), "watch?v=abc");
    assert_eq!(url_tail("abc"), "abc");
    assert_eq!(error_detail("ERROR:   [youtube] x: gone"), "[youtube] x: gone");
    assert_eq!(error_detail("timeout"), "timeout");
    let cli = Cli::with_defaults("u".to_string());
    assert_eq!(cli.format, "bestvideo+bestaudio/best");
    assert!(!cli.list_formats && !cli.verbose && cli.output.is_none() && cli.cookies.is_none());
}
