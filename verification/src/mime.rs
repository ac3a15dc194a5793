//! MIME classification: media classes, allow-lists, extension mapping, and
//! extraction of the base type from a content-type header value.

use vstd::prelude::*;

verus! {

use vstd::string::StrSliceExecFns;
use vstd::string::StringExecFns;
use crate::strutil::{
    str_eq, str_starts_with, spec_starts_with, trim_str, trim_spec, is_unicode_space,
};

/// The four kinds of media the service accepts.
#[derive(Clone, Copy, PartialEq, Eq, Structural, Debug)]
pub enum MediaClass {
    Video,
    Audio,
    Image,
    Text,
}

/// True when the MIME string names a video type.
pub open spec fn spec_is_video_mime(m: Seq<char>) -> bool {
    spec_starts_with(m, "video/"@)
}

/// True when the MIME string names an audio type.
pub open spec fn spec_is_audio_mime(m: Seq<char>) -> bool {
    spec_starts_with(m, "audio/"@)
}

/// True when the MIME string names an image type.
pub open spec fn spec_is_image_mime(m: Seq<char>) -> bool {
    spec_starts_with(m, "image/"@)
}

/// True when the MIME string is exactly `text/plain`.
pub open spec fn spec_is_text_mime(m: Seq<char>) -> bool {
    m == "text/plain"@
}

pub fn is_video_mime(mime: &str) -> (r: bool)
    ensures
        r == spec_is_video_mime(mime@),
{
    str_starts_with(mime, "video/")
}

pub fn is_audio_mime(mime: &str) -> (r: bool)
    ensures
        r == spec_is_audio_mime(mime@),
{
    str_starts_with(mime, "audio/")
}

pub fn is_image_mime(mime: &str) -> (r: bool)
    ensures
        r == spec_is_image_mime(mime@),
{
    str_starts_with(mime, "image/")
}

pub fn is_text_mime(mime: &str) -> (r: bool)
    ensures
        r == spec_is_text_mime(mime@),
{
    str_eq(mime, "text/plain")
}

/// The video types the upload endpoints accept.
pub open spec fn spec_allowed_video(m: Seq<char>) -> bool {
    ||| m == "video/mp4"@
    ||| m == "video/webm"@
    ||| m == "video/ogg"@
    ||| m == "video/quicktime"@
    ||| m == "video/x-matroska"@
    ||| m == "video/x-msvideo"@
}

/// The audio types the upload endpoints accept.
pub open spec fn spec_allowed_audio(m: Seq<char>) -> bool {
    ||| m == "audio/mpeg"@
    ||| m == "audio/ogg"@
    ||| m == "audio/wav"@
    ||| m == "audio/flac"@
    ||| m == "audio/aac"@
    ||| m == "audio/webm"@
}

/// The image types the upload endpoints accept.
pub open spec fn spec_allowed_image(m: Seq<char>) -> bool {
    ||| m == "image/png"@
    ||| m == "image/jpeg"@
    ||| m == "image/gif"@
    ||| m == "image/webp"@
    ||| m == "image/svg+xml"@
    ||| m == "image/avif"@
}

/// The text types the upload endpoints accept.
pub open spec fn spec_allowed_text(m: Seq<char>) -> bool {
    m == "text/plain"@
}

/// The allow-list for one media class.
pub open spec fn spec_mime_allowed(class: MediaClass, m: Seq<char>) -> bool {
    match class {
        MediaClass::Video => spec_allowed_video(m),
        MediaClass::Audio => spec_allowed_audio(m),
        MediaClass::Image => spec_allowed_image(m),
        MediaClass::Text => spec_allowed_text(m),
    }
}

/// Decides whether `mime` is in the allow-list of `class`.
pub fn mime_allowed(class: MediaClass, mime: &str) -> (r: bool)
    ensures
        r == spec_mime_allowed(class, mime@),
{
    match class {
        MediaClass::Video => str_eq(mime, "video/mp4") || str_eq(mime, "video/webm") || str_eq(
            mime,
            "video/ogg",
        ) || str_eq(mime, "video/quicktime") || str_eq(mime, "video/x-matroska") || str_eq(
            mime,
            "video/x-msvideo",
        ),
        MediaClass::Audio => str_eq(mime, "audio/mpeg") || str_eq(mime, "audio/ogg") || str_eq(
            mime,
            "audio/wav",
        ) || str_eq(mime, "audio/flac") || str_eq(mime, "audio/aac") || str_eq(mime, "audio/webm"),
        MediaClass::Image => str_eq(mime, "image/png") || str_eq(mime, "image/jpeg") || str_eq(
            mime,
            "image/gif",
        ) || str_eq(mime, "image/webp") || str_eq(mime, "image/svg+xml") || str_eq(
            mime,
            "image/avif",
        ),
        MediaClass::Text => str_eq(mime, "text/plain"),
    }
}

/// The file extension recorded for each MIME type.
pub open spec fn spec_extension_for_mime(m: Seq<char>) -> Seq<char> {
    if m == "video/mp4"@ {
        ".mp4"@
    } else if m == "video/webm"@ {
        ".webm"@
    } else if m == "video/ogg"@ {
        ".ogv"@
    } else if m == "video/quicktime"@ {
        ".mov"@
    } else if m == "video/x-matroska"@ {
        ".mkv"@
    } else if m == "video/x-msvideo"@ {
        ".avi"@
    } else if m == "audio/mpeg"@ {
        ".mp3"@
    } else if m == "audio/ogg"@ {
        ".ogg"@
    } else if m == "audio/wav"@ {
        ".wav"@
    } else if m == "audio/flac"@ {
        ".flac"@
    } else if m == "audio/aac"@ {
        ".aac"@
    } else if m == "audio/webm"@ {
        ".weba"@
    } else if m == "image/png"@ {
        ".png"@
    } else if m == "image/jpeg"@ {
        ".jpg"@
    } else if m == "image/gif"@ {
        ".gif"@
    } else if m == "image/webp"@ {
        ".webp"@
    } else if m == "image/svg+xml"@ {
        ".svg"@
    } else if m == "image/avif"@ {
        ".avif"@
    } else if m == "text/plain"@ {
        ".txt"@
    } else {
        ".bin"@
    }
}

/// Maps a MIME type to the extension its stored file gets.
pub fn extension_for_mime(mime: &str) -> (r: &'static str)
    ensures
        r@ == spec_extension_for_mime(mime@),
{
    if str_eq(mime, "video/mp4") {
        ".mp4"
    } else if str_eq(mime, "video/webm") {
        ".webm"
    } else if str_eq(mime, "video/ogg") {
        ".ogv"
    } else if str_eq(mime, "video/quicktime") {
        ".mov"
    } else if str_eq(mime, "video/x-matroska") {
        ".mkv"
    } else if str_eq(mime, "video/x-msvideo") {
        ".avi"
    } else if str_eq(mime, "audio/mpeg") {
        ".mp3"
    } else if str_eq(mime, "audio/ogg") {
        ".ogg"
    } else if str_eq(mime, "audio/wav") {
        ".wav"
    } else if str_eq(mime, "audio/flac") {
        ".flac"
    } else if str_eq(mime, "audio/aac") {
        ".aac"
    } else if str_eq(mime, "audio/webm") {
        ".weba"
    } else if str_eq(mime, "image/png") {
        ".png"
    } else if str_eq(mime, "image/jpeg") {
        ".jpg"
    } else if str_eq(mime, "image/gif") {
        ".gif"
    } else if str_eq(mime, "image/webp") {
        ".webp"
    } else if str_eq(mime, "image/svg+xml") {
        ".svg"
    } else if str_eq(mime, "image/avif") {
        ".avif"
    } else if str_eq(mime, "text/plain") {
        ".txt"
    } else {
        ".bin"
    }
}

/// The characters of `s` before its first `;`, or all of `s` when it has none.
pub open spec fn spec_before_semicolon(s: Seq<char>) -> Seq<char>
    decreases s.len(),
{
    if s.len() == 0 {
        s
    } else if s[0] == ';' {
        Seq::empty()
    } else {
        seq![s[0]] + spec_before_semicolon(s.drop_first())
    }
}

/// The base MIME type of a content-type header value: the part before any
/// `;` parameter list, with surrounding white space removed.
pub open spec fn spec_base_mime(s: Seq<char>) -> Seq<char> {
    trim_spec(spec_before_semicolon(s))
}

proof fn lemma_before_semicolon_at(s: Seq<char>, i: int)
    requires
        0 <= i <= s.len(),
        forall|k: int| 0 <= k < i ==> s[k] != ';',
        i < s.len() ==> s[i] == ';',
    ensures
        spec_before_semicolon(s) =~= s.subrange(0, i),
    decreases i,
{
    if i == 0 {
        if s.len() == 0 {
        } else {
            assert(s[0] == ';');
        }
    } else {
        assert(s[0] != ';');
        let t = s.drop_first();
        lemma_before_semicolon_at(t, i - 1);
        assert(seq![s[0]] + t.subrange(0, i - 1) =~= s.subrange(0, i));
    }
}

/// Extracts the base MIME type from a content-type header value.
pub fn base_mime(s: &str) -> (r: String)
    ensures
        r@ == spec_base_mime(s@),
{
    let n = s.unicode_len();
    let mut i: usize = 0;
    while i < n && s.get_char(i) != ';'
        invariant
            0 <= i <= n,
            n == s@.len(),
            forall|k: int| 0 <= k < i ==> s@[k] != ';',
        decreases n - i,
    {
        i += 1;
    }
    proof {
        lemma_before_semicolon_at(s@, i as int);
    }
    let head = s.substring_char(0, i);
    let trimmed = trim_str(head);
    trimmed.to_owned()
}

/// The URL path segment used for one media kind, as the UI names them.
pub open spec fn spec_media_url_prefix(media_type: Seq<char>) -> Seq<char> {
    if media_type == "audio"@ {
        "audio"@
    } else if media_type == "image"@ {
        "images"@
    } else if media_type == "text"@ {
        "text"@
    } else {
        "videos"@
    }
}

/// Maps a media kind name to the URL path segment serving it.
pub fn media_url_prefix(media_type: &str) -> (r: &'static str)
    ensures
        r@ == spec_media_url_prefix(media_type@),
{
    if str_eq(media_type, "audio") {
        "audio"
    } else if str_eq(media_type, "image") {
        "images"
    } else if str_eq(media_type, "text") {
        "text"
    } else {
        "videos"
    }
}

/// The media kind name a content type is displayed under.
pub open spec fn spec_media_type_of(content_type: Seq<char>) -> Seq<char> {
    if spec_is_audio_mime(content_type) {
        "audio"@
    } else if spec_is_image_mime(content_type) {
        "image"@
    } else if spec_starts_with(content_type, "text/"@) {
        "text"@
    } else {
        "video"@
    }
}

/// Classifies a content type into the media kind name the UI uses.
pub fn media_type_of(content_type: &str) -> (r: &'static str)
    ensures
        r@ == spec_media_type_of(content_type@),
{
    if is_audio_mime(content_type) {
        "audio"
    } else if is_image_mime(content_type) {
        "image"
    } else if str_starts_with(content_type, "text/") {
        "text"
    } else {
        "video"
    }
}

/// The content-type prefix that one media class lists under.
pub open spec fn spec_class_prefix(class: MediaClass) -> Seq<char> {
    match class {
        MediaClass::Video => "video/"@,
        MediaClass::Audio => "audio/"@,
        MediaClass::Image => "image/"@,
        MediaClass::Text => "text/"@,
    }
}

/// The content-type prefix used when listing one media class.
pub fn class_prefix(class: MediaClass) -> (r: &'static str)
    ensures
        r@ == spec_class_prefix(class),
{
    match class {
        MediaClass::Video => "video/",
        MediaClass::Audio => "audio/",
        MediaClass::Image => "image/",
        MediaClass::Text => "text/",
    }
}

} // verus!
