//! An executable UTF-8 validity check, proved against vstd's `valid_utf8`.

use vstd::prelude::*;

verus! {

use vstd::utf8::{
    valid_utf8, valid_first_scalar, valid_leading_and_continuation_bytes_first_codepoint,
    decode_first_codepoint, length_of_first_scalar, partial_valid_utf8, partial_valid_utf8_extend,
    partial_valid_partial_invalid_utf8, is_leading_byte_width_1, is_leading_byte_width_2,
    is_leading_byte_width_3, is_leading_byte_width_4,
};

proof fn lemma_invalid_from_here(bytes: Seq<u8>, i: int)
    requires
        partial_valid_utf8(bytes, i),
        i < bytes.len(),
        !valid_first_scalar(bytes.subrange(i, bytes.len() as int)),
    ensures
        !valid_utf8(bytes),
{
    let suf = bytes.subrange(i, bytes.len() as int);
    assert(suf.len() != 0);
    assert(!valid_utf8(suf));
    partial_valid_partial_invalid_utf8(bytes, i);
}

/// Decides whether a byte buffer is a well-formed UTF-8 encoding.
pub fn is_valid_utf8(bytes: &[u8]) -> (r: bool)
    ensures
        r == valid_utf8(bytes@),
{
    let n = bytes.len();
    let mut i: usize = 0;
    while i < n
        invariant
            0 <= i <= n,
            n == bytes@.len(),
            partial_valid_utf8(bytes@, i as int),
        decreases n - i,
    {
        let ghost suf = bytes@.subrange(i as int, n as int);
        let b0 = bytes[i];
        if b0 <= 0x7F {
            proof {
                assert(is_leading_byte_width_1(suf[0]));
                assert(valid_first_scalar(suf));
                assert(length_of_first_scalar(suf) == 1);
                partial_valid_utf8_extend(bytes@, i as int);
            }
            i = i + 1;
        } else if b0 < 0xC0 {
            // A continuation byte with no leading byte before it.
            proof {
                assert(!valid_leading_and_continuation_bytes_first_codepoint(suf));
                lemma_invalid_from_here(bytes@, i as int);
            }
            return false;
        } else if b0 <= 0xDF {
            if n - i < 2 || !(0x80 <= bytes[i + 1] && bytes[i + 1] <= 0xBF) {
                proof {
                    assert(!valid_leading_and_continuation_bytes_first_codepoint(suf));
                    lemma_invalid_from_here(bytes@, i as int);
                }
                return false;
            }
            let b1 = bytes[i + 1];
            let cp: u32 = (((b0 & 0x1F) as u32) << 6u32) | ((b1 & 0x3F) as u32);
            proof {
                assert(is_leading_byte_width_2(suf[0]));
                assert(suf[1] == b1);
                assert(decode_first_codepoint(suf) == cp);
            }
            if cp < 0x80 || (0xD800 <= cp && cp <= 0xDFFF) {
                proof {
                    lemma_invalid_from_here(bytes@, i as int);
                }
                return false;
            }
            proof {
                assert(valid_first_scalar(suf));
                assert(length_of_first_scalar(suf) == 2);
                partial_valid_utf8_extend(bytes@, i as int);
            }
            i = i + 2;
        } else if b0 <= 0xEF {
            if n - i < 3 || !(0x80 <= bytes[i + 1] && bytes[i + 1] <= 0xBF) || !(0x80 <= bytes[i
                + 2] && bytes[i + 2] <= 0xBF) {
                proof {
                    assert(!valid_leading_and_continuation_bytes_first_codepoint(suf));
                    lemma_invalid_from_here(bytes@, i as int);
                }
                return false;
            }
            let b1 = bytes[i + 1];
            let b2 = bytes[i + 2];
            let cp: u32 = (((b0 & 0x0F) as u32) << 12u32) | (((b1 & 0x3F) as u32) << 6u32) | ((b2
                & 0x3F) as u32);
            proof {
                assert(is_leading_byte_width_3(suf[0]));
                assert(suf[1] == b1 && suf[2] == b2);
                assert(decode_first_codepoint(suf) == cp);
            }
            if cp < 0x800 || (0xD800 <= cp && cp <= 0xDFFF) {
                proof {
                    lemma_invalid_from_here(bytes@, i as int);
                }
                return false;
            }
            proof {
                assert(valid_first_scalar(suf));
                assert(length_of_first_scalar(suf) == 3);
                partial_valid_utf8_extend(bytes@, i as int);
            }
            i = i + 3;
        } else if b0 <= 0xF7 {
            if n - i < 4 || !(0x80 <= bytes[i + 1] && bytes[i + 1] <= 0xBF) || !(0x80 <= bytes[i
                + 2] && bytes[i + 2] <= 0xBF) || !(0x80 <= bytes[i + 3] && bytes[i + 3] <= 0xBF) {
                proof {
                    assert(!valid_leading_and_continuation_bytes_first_codepoint(suf));
                    lemma_invalid_from_here(bytes@, i as int);
                }
                return false;
            }
            let b1 = bytes[i + 1];
            let b2 = bytes[i + 2];
            let b3 = bytes[i + 3];
            let cp: u32 = (((b0 & 0x07) as u32) << 18u32) | (((b1 & 0x3F) as u32) << 12u32) | (((b2
                & 0x3F) as u32) << 6u32) | ((b3 & 0x3F) as u32);
            proof {
                assert(is_leading_byte_width_4(suf[0]));
                assert(suf[1] == b1 && suf[2] == b2 && suf[3] == b3);
                assert(decode_first_codepoint(suf) == cp);
            }
            if cp < 0x10000 || cp > 0x10FFFF || (0xD800 <= cp && cp <= 0xDFFF) {
                proof {
                    lemma_invalid_from_here(bytes@, i as int);
                }
                return false;
            }
            proof {
                assert(valid_first_scalar(suf));
                assert(length_of_first_scalar(suf) == 4);
                partial_valid_utf8_extend(bytes@, i as int);
            }
            i = i + 4;
        } else {
            // 0xF8 and above can never lead a scalar encoding.
            proof {
                assert(!valid_leading_and_continuation_bytes_first_codepoint(suf));
                lemma_invalid_from_here(bytes@, i as int);
            }
            return false;
        }
    }
    proof {
        assert(bytes@.subrange(0, n as int) =~= bytes@);
    }
    true
}

} // verus!
