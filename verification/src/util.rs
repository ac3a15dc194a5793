//! Small rendering helpers: HTML escaping for text shown in pages, and
//! percent-encoding for values placed into URLs.

use vstd::prelude::*;

verus! {

use vstd::utf8::encode_utf8;
use vstd::string::{StrSliceExecFns, StringSliceAdditionalSpecFns};

/// Relies on `String::from_iter` over `char`: collecting characters
/// yields exactly the string of those characters.
#[verifier::external_body]
pub(crate) fn chars_to_string(v: Vec<char>) -> (r: String)
    ensures
        r@ == v@,
{
    v.into_iter().collect()
}

/// How one character is written in escaped HTML text.
pub open spec fn spec_escape_char(c: char) -> Seq<char> {
    if c == '&' {
        seq!['&', 'a', 'm', 'p', ';']
    } else if c == '<' {
        seq!['&', 'l', 't', ';']
    } else if c == '>' {
        seq!['&', 'g', 't', ';']
    } else {
        seq![c]
    }
}

/// The HTML-escaped form of a string: `&`, `<` and `>` replaced by their
/// character references.
pub open spec fn spec_html_escape(s: Seq<char>) -> Seq<char>
    decreases s.len(),
{
    if s.len() == 0 {
        Seq::empty()
    } else {
        spec_html_escape(s.drop_last()) + spec_escape_char(s.last())
    }
}

proof fn lemma_html_escape_step(s: Seq<char>, i: int)
    requires
        0 <= i < s.len(),
    ensures
        spec_html_escape(s.take(i + 1)) == spec_html_escape(s.take(i)) + spec_escape_char(s[i]),
{
    let t = s.take(i + 1);
    assert(t.drop_last() =~= s.take(i));
    assert(t.last() == s[i]);
}

/// Escapes `&`, `<` and `>` for safe inclusion in HTML text.
pub fn html_escape(s: &str) -> (r: String)
    ensures
        r@ == spec_html_escape(s@),
{
    let n = s.unicode_len();
    let mut out: Vec<char> = Vec::new();
    let mut i: usize = 0;
    while i < n
        invariant
            0 <= i <= n,
            n == s@.len(),
            out@ == spec_html_escape(s@.take(i as int)),
        decreases n - i,
    {
        proof {
            lemma_html_escape_step(s@, i as int);
        }
        let c = s.get_char(i);
        if c == '&' {
            out.push('&');
            out.push('a');
            out.push('m');
            out.push('p');
            out.push(';');
        } else if c == '<' {
            out.push('&');
            out.push('l');
            out.push('t');
            out.push(';');
        } else if c == '>' {
            out.push('&');
            out.push('g');
            out.push('t');
            out.push(';');
        } else {
            out.push(c);
        }
        proof {
            assert(out@ =~= spec_html_escape(s@.take(i as int)) + spec_escape_char(s@[i as int]));
        }
        i += 1;
    }
    proof {
        assert(s@.take(n as int) =~= s@);
    }
    chars_to_string(out)
}

/// The uppercase hex digit of a value below 16.
pub open spec fn spec_hex_digit_upper(n: u8) -> char {
    if n == 0 {
        '0'
    } else if n == 1 {
        '1'
    } else if n == 2 {
        '2'
    } else if n == 3 {
        '3'
    } else if n == 4 {
        '4'
    } else if n == 5 {
        '5'
    } else if n == 6 {
        '6'
    } else if n == 7 {
        '7'
    } else if n == 8 {
        '8'
    } else if n == 9 {
        '9'
    } else if n == 10 {
        'A'
    } else if n == 11 {
        'B'
    } else if n == 12 {
        'C'
    } else if n == 13 {
        'D'
    } else if n == 14 {
        'E'
    } else {
        'F'
    }
}

fn hex_digit_upper(n: u8) -> (r: char)
    requires
        n < 16,
    ensures
        r == spec_hex_digit_upper(n),
{
    if n == 0 {
        '0'
    } else if n == 1 {
        '1'
    } else if n == 2 {
        '2'
    } else if n == 3 {
        '3'
    } else if n == 4 {
        '4'
    } else if n == 5 {
        '5'
    } else if n == 6 {
        '6'
    } else if n == 7 {
        '7'
    } else if n == 8 {
        '8'
    } else if n == 9 {
        '9'
    } else if n == 10 {
        'A'
    } else if n == 11 {
        'B'
    } else if n == 12 {
        'C'
    } else if n == 13 {
        'D'
    } else if n == 14 {
        'E'
    } else {
        'F'
    }
}

/// True for the bytes percent-encoding passes through unchanged.
pub open spec fn spec_unreserved(b: u8) -> bool {
    ||| (0x41 <= b <= 0x5A)
    ||| (0x61 <= b <= 0x7A)
    ||| (0x30 <= b <= 0x39)
    ||| b == 0x2D
    ||| b == 0x5F
    ||| b == 0x2E
    ||| b == 0x7E
}

/// How one byte is written in percent-encoded form.
pub open spec fn spec_encode_byte(b: u8) -> Seq<char> {
    if spec_unreserved(b) {
        seq![b as char]
    } else {
        seq!['%', spec_hex_digit_upper(b / 16), spec_hex_digit_upper(b % 16)]
    }
}

/// Percent-encoding of a byte sequence: unreserved bytes stay, every other
/// byte becomes `%` and two uppercase hex digits.
pub open spec fn spec_urlencode_bytes(b: Seq<u8>) -> Seq<char>
    decreases b.len(),
{
    if b.len() == 0 {
        Seq::empty()
    } else {
        spec_urlencode_bytes(b.drop_last()) + spec_encode_byte(b.last())
    }
}

/// Percent-encoding of a string: its UTF-8 bytes, encoded byte by byte.
pub open spec fn spec_urlencoded(s: Seq<char>) -> Seq<char> {
    spec_urlencode_bytes(encode_utf8(s))
}

proof fn lemma_urlencode_step(b: Seq<u8>, i: int)
    requires
        0 <= i < b.len(),
    ensures
        spec_urlencode_bytes(b.take(i + 1)) == spec_urlencode_bytes(b.take(i)) + spec_encode_byte(
            b[i],
        ),
{
    let t = b.take(i + 1);
    assert(t.drop_last() =~= b.take(i));
    assert(t.last() == b[i]);
}

/// Percent-encodes a string for use in a URL query value.
pub fn urlencoded(s: &str) -> (r: String)
    ensures
        r@ == spec_urlencoded(s@),
{
    broadcast use vstd::slice::axiom_spec_len;

    let bytes = s.as_bytes();
    let n = bytes.len();
    let mut out: Vec<char> = Vec::new();
    let mut i: usize = 0;
    while i < n
        invariant
            0 <= i <= n,
            n == bytes@.len(),
            bytes@ == s.spec_bytes(),
            out@ == spec_urlencode_bytes(bytes@.take(i as int)),
        decreases n - i,
    {
        proof {
            lemma_urlencode_step(bytes@, i as int);
        }
        let b = bytes[i];
        let unreserved = (0x41 <= b && b <= 0x5A) || (0x61 <= b && b <= 0x7A) || (0x30 <= b && b
            <= 0x39) || b == 0x2D || b == 0x5F || b == 0x2E || b == 0x7E;
        if unreserved {
            out.push(b as char);
        } else {
            out.push('%');
            out.push(hex_digit_upper(b / 16));
            out.push(hex_digit_upper(b % 16));
        }
        proof {
            assert(out@ =~= spec_urlencode_bytes(bytes@.take(i as int)) + spec_encode_byte(
                bytes@[i as int],
            ));
        }
        i += 1;
    }
    proof {
        assert(bytes@.take(n as int) =~= bytes@);
    }
    chars_to_string(out)
}

} // verus!
