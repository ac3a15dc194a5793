//! The magic-byte validator: checks that a buffer's leading bytes are
//! structurally consistent with its declared MIME type. This is the
//! authoritative gate against a client lying about content type.

use vstd::prelude::*;

verus! {

use vstd::utf8::valid_utf8;
use crate::encoding::is_valid_utf8;
use crate::strutil::str_eq;

/// Relies on `core::str::from_utf8`: a buffer of valid UTF-8 decodes to
/// the string of exactly its scalars; anything else is refused.
#[verifier::external_body]
fn bytes_to_str<'a>(b: &'a [u8]) -> (r: Option<&'a str>)
    ensures
        match r {
            Some(s) => valid_utf8(b@) && s@ == vstd::utf8::decode_utf8(b@),
            None => !valid_utf8(b@),
        },
{
    core::str::from_utf8(b).ok()
}

/// True when the buffer opens an SVG document: its leading bytes decode as
/// UTF-8 and, after leading white space, start an `<svg` tag or an XML
/// declaration.
pub open spec fn spec_svg_magic(b: Seq<u8>) -> bool {
    let p = if b.len() < crate::MAGIC_READ_BYTES {
        b
    } else {
        b.take(crate::MAGIC_READ_BYTES as int)
    };
    &&& valid_utf8(p)
    &&& {
        let t = crate::strutil::drop_leading_spaces(vstd::utf8::decode_utf8(p));
        crate::strutil::spec_starts_with(t, "<svg"@) || crate::strutil::spec_starts_with(
            t,
            "<?xml"@,
        )
    }
}

/// What the validator accepts: the known container signature of each
/// supported MIME type, checked over the buffer's leading bytes.
pub open spec fn spec_magic_ok(b: Seq<u8>, mime: Seq<char>) -> bool {
    &&& b.len() >= 4
    &&& if mime == "video/mp4"@ || mime == "video/quicktime"@ {
        b.len() >= 8 && b[4] == 0x66 && b[5] == 0x74 && b[6] == 0x79 && b[7] == 0x70
    } else if mime == "video/webm"@ || mime == "video/x-matroska"@ || mime == "audio/webm"@ {
        b[0] == 0x1A && b[1] == 0x45 && b[2] == 0xDF && b[3] == 0xA3
    } else if mime == "video/ogg"@ || mime == "audio/ogg"@ {
        b[0] == 0x4F && b[1] == 0x67 && b[2] == 0x67 && b[3] == 0x53
    } else if mime == "video/x-msvideo"@ {
        b.len() >= 12 && b[0] == 0x52 && b[1] == 0x49 && b[2] == 0x46 && b[3] == 0x46 && b[8]
            == 0x41 && b[9] == 0x56 && b[10] == 0x49 && b[11] == 0x20
    } else if mime == "audio/mpeg"@ {
        (b[0] == 0xFF && (b[1] & 0xE0) == 0xE0) || (b[0] == 0x49 && b[1] == 0x44 && b[2] == 0x33)
    } else if mime == "audio/wav"@ {
        b.len() >= 12 && b[0] == 0x52 && b[1] == 0x49 && b[2] == 0x46 && b[3] == 0x46 && b[8]
            == 0x57 && b[9] == 0x41 && b[10] == 0x56 && b[11] == 0x45
    } else if mime == "audio/flac"@ {
        b[0] == 0x66 && b[1] == 0x4C && b[2] == 0x61 && b[3] == 0x43
    } else if mime == "audio/aac"@ {
        b[0] == 0xFF && (b[1] & 0xF0) == 0xF0
    } else if mime == "image/png"@ {
        b[0] == 0x89 && b[1] == 0x50 && b[2] == 0x4E && b[3] == 0x47
    } else if mime == "image/jpeg"@ {
        b[0] == 0xFF && b[1] == 0xD8 && b[2] == 0xFF
    } else if mime == "image/gif"@ {
        b.len() >= 6 && b[0] == 0x47 && b[1] == 0x49 && b[2] == 0x46 && b[3] == 0x38 && (b[4]
            == 0x37 || b[4] == 0x39) && b[5] == 0x61
    } else if mime == "image/webp"@ {
        b.len() >= 12 && b[0] == 0x52 && b[1] == 0x49 && b[2] == 0x46 && b[3] == 0x46 && b[8]
            == 0x57 && b[9] == 0x45 && b[10] == 0x42 && b[11] == 0x50
    } else if mime == "image/svg+xml"@ {
        spec_svg_magic(b)
    } else if mime == "image/avif"@ {
        b.len() >= 12 && b[4] == 0x66 && b[5] == 0x74 && b[6] == 0x79 && b[7] == 0x70
    } else if mime == "text/plain"@ {
        valid_utf8(b)
    } else {
        false
    }
}

/// Decides [`spec_svg_magic`]: decodes the leading bytes, trims leading
/// white space, and probes for `<svg` or `<?xml`.
fn svg_magic(bytes: &[u8]) -> (r: bool)
    ensures
        r == spec_svg_magic(bytes@),
{
    let n = if bytes.len() < crate::MAGIC_READ_BYTES {
        bytes.len()
    } else {
        crate::MAGIC_READ_BYTES
    };
    let prefix = &bytes[0..n];
    proof {
        assert(prefix@ =~= (if bytes@.len() < crate::MAGIC_READ_BYTES {
            bytes@
        } else {
            bytes@.take(crate::MAGIC_READ_BYTES as int)
        }));
    }
    let head = match bytes_to_str(prefix) {
        Some(s) => s,
        None => {
            return false;
        },
    };
    let trimmed = crate::strutil::trim_start_str(head);
    crate::strutil::str_starts_with(trimmed, "<svg") || crate::strutil::str_starts_with(
        trimmed,
        "<?xml",
    )
}

/// Classifies a buffer's leading bytes against a declared MIME type.
/// Accepts exactly when the bytes carry the container signature the type
/// requires; unknown types are always rejected.
pub fn verify_magic_bytes(bytes: &[u8], mime: &str) -> (r: bool)
    ensures
        r == spec_magic_ok(bytes@, mime@),
{
    if bytes.len() < 4 {
        return false;
    }
    if str_eq(mime, "video/mp4") || str_eq(mime, "video/quicktime") {
        bytes.len() >= 8 && bytes[4] == 0x66 && bytes[5] == 0x74 && bytes[6] == 0x79 && bytes[7]
            == 0x70
    } else if str_eq(mime, "video/webm") || str_eq(mime, "video/x-matroska") || str_eq(
        mime,
        "audio/webm",
    ) {
        bytes[0] == 0x1A && bytes[1] == 0x45 && bytes[2] == 0xDF && bytes[3] == 0xA3
    } else if str_eq(mime, "video/ogg") || str_eq(mime, "audio/ogg") {
        bytes[0] == 0x4F && bytes[1] == 0x67 && bytes[2] == 0x67 && bytes[3] == 0x53
    } else if str_eq(mime, "video/x-msvideo") {
        bytes.len() >= 12 && bytes[0] == 0x52 && bytes[1] == 0x49 && bytes[2] == 0x46 && bytes[3]
            == 0x46 && bytes[8] == 0x41 && bytes[9] == 0x56 && bytes[10] == 0x49 && bytes[11]
            == 0x20
    } else if str_eq(mime, "audio/mpeg") {
        (bytes[0] == 0xFF && (bytes[1] & 0xE0) == 0xE0) || (bytes[0] == 0x49 && bytes[1] == 0x44
            && bytes[2] == 0x33)
    } else if str_eq(mime, "audio/wav") {
        bytes.len() >= 12 && bytes[0] == 0x52 && bytes[1] == 0x49 && bytes[2] == 0x46 && bytes[3]
            == 0x46 && bytes[8] == 0x57 && bytes[9] == 0x41 && bytes[10] == 0x56 && bytes[11]
            == 0x45
    } else if str_eq(mime, "audio/flac") {
        bytes[0] == 0x66 && bytes[1] == 0x4C && bytes[2] == 0x61 && bytes[3] == 0x43
    } else if str_eq(mime, "audio/aac") {
        bytes[0] == 0xFF && (bytes[1] & 0xF0) == 0xF0
    } else if str_eq(mime, "image/png") {
        bytes[0] == 0x89 && bytes[1] == 0x50 && bytes[2] == 0x4E && bytes[3] == 0x47
    } else if str_eq(mime, "image/jpeg") {
        bytes[0] == 0xFF && bytes[1] == 0xD8 && bytes[2] == 0xFF
    } else if str_eq(mime, "image/gif") {
        bytes.len() >= 6 && bytes[0] == 0x47 && bytes[1] == 0x49 && bytes[2] == 0x46 && bytes[3]
            == 0x38 && (bytes[4] == 0x37 || bytes[4] == 0x39) && bytes[5] == 0x61
    } else if str_eq(mime, "image/webp") {
        bytes.len() >= 12 && bytes[0] == 0x52 && bytes[1] == 0x49 && bytes[2] == 0x46 && bytes[3]
            == 0x46 && bytes[8] == 0x57 && bytes[9] == 0x45 && bytes[10] == 0x42 && bytes[11]
            == 0x50
    } else if str_eq(mime, "image/svg+xml") {
        svg_magic(bytes)
    } else if str_eq(mime, "image/avif") {
        bytes.len() >= 12 && bytes[4] == 0x66 && bytes[5] == 0x74 && bytes[6] == 0x79 && bytes[7]
            == 0x70
    } else if str_eq(mime, "text/plain") {
        is_valid_utf8(bytes)
    } else {
        false
    }
}

} // verus!
