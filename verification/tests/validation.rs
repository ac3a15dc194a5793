//! Validation behavior: MIME classification, magic bytes, UTF-8, string
//! helpers, and fingerprints.

use media_ingest::encoding::is_valid_utf8;
use media_ingest::fingerprint::exact_digest;
use media_ingest::magic::verify_magic_bytes;
use media_ingest::mime::{
    base_mime, class_prefix, extension_for_mime, is_audio_mime, is_image_mime, is_text_mime,
    is_video_mime, media_type_of, media_url_prefix, mime_allowed, MediaClass,
};
use media_ingest::model::default_true;
use media_ingest::strutil::{str_eq, str_starts_with, trim_str};
use media_ingest::ranges::{parse_u64, resolve_range, RangeOutcome};
use media_ingest::util::{html_escape, urlencoded};

#[test]
fn mime_classification() {
    assert!(is_video_mime("video/mp4"));
    assert!(is_video_mime("video/x-matroska"));
    assert!(!is_video_mime("audio/mpeg"));
    assert!(is_audio_mime("audio/ogg"));
    assert!(!is_audio_mime("video/ogg"));
    assert!(is_image_mime("image/png"));
    assert!(is_text_mime("text/plain"));
    assert!(!is_text_mime("text/html"));
}

#[test]
fn mime_allow_lists() {
    assert!(mime_allowed(MediaClass::Video, "video/mp4"));
    assert!(mime_allowed(MediaClass::Video, "video/webm"));
    assert!(!mime_allowed(MediaClass::Video, "video/x-flv"));
    assert!(mime_allowed(MediaClass::Audio, "audio/flac"));
    assert!(!mime_allowed(MediaClass::Audio, "audio/midi"));
    assert!(mime_allowed(MediaClass::Image, "image/svg+xml"));
    assert!(!mime_allowed(MediaClass::Image, "image/tiff"));
    assert!(mime_allowed(MediaClass::Text, "text/plain"));
    assert!(!mime_allowed(MediaClass::Text, "text/html"));
}

#[test]
fn extensions() {
    assert_eq!(extension_for_mime("video/mp4"), ".mp4");
    assert_eq!(extension_for_mime("video/ogg"), ".ogv");
    assert_eq!(extension_for_mime("video/quicktime"), ".mov");
    assert_eq!(extension_for_mime("audio/mpeg"), ".mp3");
    assert_eq!(extension_for_mime("audio/webm"), ".weba");
    assert_eq!(extension_for_mime("image/jpeg"), ".jpg");
    assert_eq!(extension_for_mime("image/svg+xml"), ".svg");
    assert_eq!(extension_for_mime("text/plain"), ".txt");
    assert_eq!(extension_for_mime("application/octet-stream"), ".bin");
}

#[test]
fn base_mime_strips_parameters() {
    assert_eq!(base_mime("video/mp4; codecs=avc1"), "video/mp4");
    assert_eq!(base_mime("  text/plain  "), "text/plain");
    assert_eq!(base_mime("video/webm"), "video/webm");
    assert_eq!(base_mime(";x"), "");
}

#[test]
fn magic_mp4() {
    let mut buf = vec![0u8; 16];
    buf[4] = b'f';
    buf[5] = b't';
    buf[6] = b'y';
    buf[7] = b'p';
    assert!(verify_magic_bytes(&buf, "video/mp4"));
    assert!(verify_magic_bytes(&buf, "video/quicktime"));
    assert!(verify_magic_bytes(&buf, "image/avif"));
    assert!(!verify_magic_bytes(&buf, "video/webm"));
    assert!(!verify_magic_bytes(&buf[..7], "video/mp4"));
    assert!(!verify_magic_bytes(&buf[..3], "video/mp4"));
}

#[test]
fn magic_rejects_spoofed_type() {
    // PNG magic declared as video: the validator must say no.
    let mut buf = vec![0u8; 32];
    buf[0] = 0x89;
    buf[1] = 0x50;
    buf[2] = 0x4E;
    buf[3] = 0x47;
    assert!(verify_magic_bytes(&buf, "image/png"));
    assert!(!verify_magic_bytes(&buf, "video/mp4"));
    assert!(!verify_magic_bytes(&buf, "audio/mpeg"));
}

#[test]
fn magic_other_containers() {
    let webm = [0x1A, 0x45, 0xDF, 0xA3, 0, 0, 0, 0];
    assert!(verify_magic_bytes(&webm, "video/webm"));
    assert!(verify_magic_bytes(&webm, "video/x-matroska"));
    assert!(verify_magic_bytes(&webm, "audio/webm"));
    let ogg = b"OggS\x00\x00\x00\x00";
    assert!(verify_magic_bytes(ogg, "video/ogg"));
    assert!(verify_magic_bytes(ogg, "audio/ogg"));
    let mut wav = vec![0u8; 12];
    wav[..4].copy_from_slice(b"RIFF");
    wav[8..12].copy_from_slice(b"WAVE");
    assert!(verify_magic_bytes(&wav, "audio/wav"));
    let mut avi = wav.clone();
    avi[8..12].copy_from_slice(b"AVI ");
    assert!(verify_magic_bytes(&avi, "video/x-msvideo"));
    let mut webp = wav.clone();
    webp[8..12].copy_from_slice(b"WEBP");
    assert!(verify_magic_bytes(&webp, "image/webp"));
    assert!(verify_magic_bytes(b"GIF89a..", "image/gif"));
    assert!(verify_magic_bytes(b"GIF87a..", "image/gif"));
    assert!(!verify_magic_bytes(b"GIF88a..", "image/gif"));
    assert!(verify_magic_bytes(b"fLaC\x00\x00\x00\x00", "audio/flac"));
    assert!(verify_magic_bytes(b"ID3\x04\x00\x00\x00\x00", "audio/mpeg"));
    assert!(verify_magic_bytes(&[0xFF, 0xFB, 0x90, 0x00], "audio/mpeg"));
    assert!(verify_magic_bytes(&[0xFF, 0xF1, 0x00, 0x00], "audio/aac"));
    assert!(verify_magic_bytes(&[0xFF, 0xD8, 0xFF, 0xE0], "image/jpeg"));
}

#[test]
fn magic_svg_allows_leading_whitespace() {
    assert!(verify_magic_bytes(b"<svg xmlns=\"a\">", "image/svg+xml"));
    assert!(verify_magic_bytes(b"\n\t  <?xml version=\"1.0\"?>", "image/svg+xml"));
    assert!(verify_magic_bytes("\u{A0}\u{2003}<svg>".as_bytes(), "image/svg+xml"));
    assert!(!verify_magic_bytes(b"<html><svg>", "image/svg+xml"));
    // a prefix that does not decode as UTF-8 is rejected even after `<svg`
    assert!(!verify_magic_bytes(&[b'<', b's', b'v', b'g', 0xFF, 0xFE], "image/svg+xml"));
}

#[test]
fn magic_text_plain_is_utf8_check() {
    assert!(verify_magic_bytes(b"hello world", "text/plain"));
    assert!(!verify_magic_bytes(&[b'a', b'b', 0xFF, b'c'], "text/plain"));
    assert!(!verify_magic_bytes(b"abc", "text/plain")); // under four bytes
    assert!(!verify_magic_bytes(b"hello", "text/html")); // unknown type
}

#[test]
fn utf8_validation() {
    assert!(is_valid_utf8(b""));
    assert!(is_valid_utf8(b"plain ascii"));
    assert!(is_valid_utf8("héllo wörld…".as_bytes()));
    assert!(is_valid_utf8("\u{10348}\u{7FFF}".as_bytes()));
    assert!(!is_valid_utf8(&[0xFF]));
    assert!(!is_valid_utf8(&[0x80])); // stray continuation
    assert!(!is_valid_utf8(&[0xC0, 0x80])); // overlong two-byte form
    assert!(!is_valid_utf8(&[0xE0, 0x80, 0x80])); // overlong three-byte form
    assert!(!is_valid_utf8(&[0xED, 0xA0, 0x80])); // surrogate
    assert!(!is_valid_utf8(&[0xF4, 0x90, 0x80, 0x80])); // above U+10FFFF
    assert!(!is_valid_utf8(&[0xC3])); // cut off mid-scalar
}

#[test]
fn string_helpers() {
    assert!(str_eq("abc", "abc"));
    assert!(!str_eq("abc", "abd"));
    assert!(!str_eq("abc", "ab"));
    assert!(str_starts_with("video/mp4", "video/"));
    assert!(!str_starts_with("audio/mp4", "video/"));
    assert_eq!(trim_str("  héllo\t"), "héllo");
    assert_eq!(trim_str("   "), "");
    assert_eq!(trim_str("x"), "x");
}

#[test]
fn html_escaping() {
    assert_eq!(html_escape("a<b&c>d"), "a&lt;b&amp;c&gt;d");
    assert_eq!(html_escape("plain"), "plain");
    assert_eq!(html_escape(""), "");
}

#[test]
fn url_encoding() {
    assert_eq!(urlencoded("abc-_.~XYZ019"), "abc-_.~XYZ019");
    assert_eq!(urlencoded("a b/c"), "a%20b%2Fc");
    assert_eq!(urlencoded("ä"), "%C3%A4");
}

#[test]
fn exact_digest_known_vector() {
    assert_eq!(
        exact_digest(b"abc"),
        "ba7816bf8f01cfea414140de5dae2223b00361a396177a9cb410ff61f20015ad"
    );
    assert_eq!(exact_digest(b"abc").len(), 64);
}

#[test]
fn media_type_names() {
    assert_eq!(media_type_of("audio/ogg"), "audio");
    assert_eq!(media_type_of("image/png"), "image");
    assert_eq!(media_type_of("text/plain"), "text");
    assert_eq!(media_type_of("video/mp4"), "video");
    assert_eq!(media_url_prefix("audio"), "audio");
    assert_eq!(media_url_prefix("image"), "images");
    assert_eq!(media_url_prefix("text"), "text");
    assert_eq!(media_url_prefix("video"), "videos");
    assert_eq!(class_prefix(MediaClass::Audio), "audio/");
    assert!(default_true());
}

#[test]
fn decimal_parsing_matches_std() {
    for s in ["0", "42", "+42", "18446744073709551615", "18446744073709551616", "", "+", "-1",
        "1x", " 1", "99999999999999999999999"]
    {
        assert_eq!(parse_u64(s), s.parse::<u64>().ok(), "input {:?}", s);
    }
}

#[test]
fn range_resolution() {
    assert!(matches!(resolve_range(None, 100), RangeOutcome::Full));
    assert!(matches!(resolve_range(Some("items=0-5"), 100), RangeOutcome::Full));
    assert!(matches!(resolve_range(Some("bytes=0-49"), 100), RangeOutcome::Partial(0, 49)));
    assert!(matches!(resolve_range(Some("bytes=10-"), 100), RangeOutcome::Partial(10, 99)));
    assert!(matches!(resolve_range(Some("bytes=10"), 100), RangeOutcome::Partial(10, 99)));
    assert!(matches!(resolve_range(Some("bytes=0-500"), 100), RangeOutcome::Partial(0, 99)));
    assert!(matches!(resolve_range(Some("bytes=junk-junk"), 100), RangeOutcome::Partial(0, 99)));
    assert!(matches!(resolve_range(Some("bytes=50-10"), 100), RangeOutcome::Unsatisfiable));
}
