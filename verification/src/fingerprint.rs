//! Content fingerprinting: an exact cryptographic digest for byte-exact
//! equality, and a locality-sensitive fuzzy digest for near-duplicate
//! detection of video content. The hash computations are performed by
//! outside crates through the trusted wrappers in this module.

use vstd::prelude::*;

use sha2::Digest;

verus! {

/// The hex digit character of a value below 16, lowercase.
pub open spec fn hex_digit(n: u8) -> char {
    if n == 0 {
        '0'
    } else if n == 1 {
        '1'
    } else if n == 2 {
        '2'
    } else if n == 3 {
        '3'
    } else if n == 4 {
        '4'
    } else if n == 5 {
        '5'
    } else if n == 6 {
        '6'
    } else if n == 7 {
        '7'
    } else if n == 8 {
        '8'
    } else if n == 9 {
        '9'
    } else if n == 10 {
        'a'
    } else if n == 11 {
        'b'
    } else if n == 12 {
        'c'
    } else if n == 13 {
        'd'
    } else if n == 14 {
        'e'
    } else {
        'f'
    }
}

/// Lowercase hex encoding: two digits per byte, high nibble first.
pub open spec fn hex_of(b: Seq<u8>) -> Seq<char>
    decreases b.len(),
{
    if b.len() == 0 {
        Seq::empty()
    } else {
        seq![hex_digit(b[0] / 16), hex_digit(b[0] % 16)] + hex_of(b.drop_first())
    }
}

/// The SHA-256 digest of a byte sequence: a function of the bytes alone,
/// left uninterpreted here; the wrapper below produces it.
pub uninterp spec fn sha256_of(data: Seq<u8>) -> Seq<u8>;

/// The fuzzy digest of a byte sequence, already in its hexadecimal text
/// form, or `None` when the algorithm cannot produce one (inputs that are
/// too short or too uniform). A function of the bytes alone.
pub uninterp spec fn fuzzy_digest_of(data: Seq<u8>) -> Option<Seq<char>>;

/// The distance between two fuzzy digests given in text form, or `None`
/// when either does not parse back into a digest. A function of the two
/// texts alone.
pub uninterp spec fn fuzzy_distance_of(a: Seq<char>, b: Seq<char>) -> Option<i32>;

/// Relies on `sha2::Sha256::digest`: the digest is a function of the input
/// bytes alone and is always 32 bytes long.
#[verifier::external_body]
fn sha256_digest(data: &[u8]) -> (r: Vec<u8>)
    ensures
        r@ == sha256_of(data@),
        r@.len() == 32,
{
    sha2::Sha256::digest(data).to_vec()
}

/// Relies on `hex::encode`: lowercase hex, two digits per byte, high
/// nibble first, as [`hex_of`] states.
#[verifier::external_body]
fn hex_encode(data: &[u8]) -> (r: String)
    ensures
        r@ == hex_of(data@),
{
    hex::encode(data)
}

/// Relies on `tlsh2::TlshDefaultBuilder::build_from` and `Tlsh::hash`: the
/// digest text is a function of the input bytes alone; `build_from`
/// returns `None` on inputs it cannot digest.
#[verifier::external_body]
fn tlsh_digest(data: &[u8]) -> (r: Option<String>)
    ensures
        r matches Some(s) ==> fuzzy_digest_of(data@) == Some(s@),
        r is None ==> fuzzy_digest_of(data@) is None,
{
    tlsh2::TlshDefaultBuilder::build_from(data).map(
        |t| String::from_utf8_lossy(&t.hash()).into_owned(),
    )
}

/// Relies on `str::parse::<tlsh2::TlshDefault>` and `Tlsh::diff` with
/// length weighting on: the distance is a function of the two digest
/// texts alone; malformed text fails to parse and yields no distance.
#[verifier::external_body]
fn tlsh_diff(a: &str, b: &str) -> (r: Option<i32>)
    ensures
        r == fuzzy_distance_of(a@, b@),
{
    let ta: tlsh2::TlshDefault = match a.parse() {
        Ok(t) => t,
        Err(_) => return None,
    };
    let tb: tlsh2::TlshDefault = match b.parse() {
        Ok(t) => t,
        Err(_) => return None,
    };
    Some(ta.diff(&tb, true))
}

/// Relies on `uuid::Uuid::new_v4` and its `Display` form: a fresh random
/// identifier, rendered as the 36-character hyphenated text.
#[verifier::external_body]
pub fn generate_id() -> (r: String)
    ensures
        r@.len() == 36,
{
    uuid::Uuid::new_v4().to_string()
}

/// The exact digest of a payload: its SHA-256 digest, hex-encoded.
pub open spec fn spec_exact_digest(data: Seq<u8>) -> Seq<char> {
    hex_of(sha256_of(data))
}

proof fn lemma_hex_of_len(b: Seq<u8>)
    ensures
        hex_of(b).len() == 2 * b.len(),
    decreases b.len(),
{
    if b.len() > 0 {
        lemma_hex_of_len(b.drop_first());
    }
}

/// Computes the exact digest of a payload.
pub fn exact_digest(data: &[u8]) -> (r: String)
    ensures
        r@ == spec_exact_digest(data@),
        r@.len() == 64,
{
    let digest = sha256_digest(data);
    let r = hex_encode(digest.as_slice());
    proof {
        lemma_hex_of_len(digest@);
    }
    r
}

/// Two fuzzy digests count as similar below this distance.
pub const FUZZY_SIMILARITY_THRESHOLD: i32 = 100;

/// The fuzzy digest of a payload, computed only for video content.
pub open spec fn spec_fuzzy_digest(data: Seq<u8>, is_video: bool) -> Option<Seq<char>> {
    if is_video {
        fuzzy_digest_of(data)
    } else {
        None
    }
}

/// Computes the fuzzy digest of a payload when `is_video` asks for one.
pub fn fuzzy_digest(data: &[u8], is_video: bool) -> (r: Option<String>)
    ensures
        r matches Some(s) ==> spec_fuzzy_digest(data@, is_video) == Some(s@),
        r is None ==> spec_fuzzy_digest(data@, is_video) is None,
{
    if is_video {
        tlsh_digest(data)
    } else {
        None
    }
}

/// True when two fuzzy digest texts are within the similarity threshold.
pub open spec fn spec_similar(a: Seq<char>, b: Seq<char>) -> bool {
    match fuzzy_distance_of(a, b) {
        Some(d) => d < FUZZY_SIMILARITY_THRESHOLD,
        None => false,
    }
}

/// Decides whether two fuzzy digest texts are within the similarity
/// threshold; digests that do not parse are never similar.
pub fn similar(a: &str, b: &str) -> (r: bool)
    ensures
        r == spec_similar(a@, b@),
{
    match tlsh_diff(a, b) {
        Some(d) => d < FUZZY_SIMILARITY_THRESHOLD,
        None => false,
    }
}

} // verus!
