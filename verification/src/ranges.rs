//! Byte-range resolution for streaming requests: parsing a `Range` header
//! value against a file size, with the decimal parsing done here and
//! proved exact.

use vstd::prelude::*;

verus! {

use vstd::string::StrSliceExecFns;
use crate::strutil::spec_starts_with;

/// True for an ASCII decimal digit.
pub open spec fn is_digit(c: char) -> bool {
    48 <= c as u32 <= 57
}

/// The value of a digit string, most significant first.
pub open spec fn digits_val(s: Seq<char>) -> int
    decreases s.len(),
{
    if s.len() == 0 {
        0
    } else {
        digits_val(s.drop_last()) * 10 + (s.last() as u32 - 48)
    }
}

/// True when every character is a decimal digit.
pub open spec fn all_digits(s: Seq<char>) -> bool {
    forall|i: int| 0 <= i < s.len() ==> is_digit(#[trigger] s[i])
}

/// What `str::parse::<u64>` accepts: an optional leading `+`, then one or
/// more digits, with a value that fits.
pub open spec fn spec_parse_u64(s: Seq<char>) -> Option<u64> {
    let body = if s.len() > 0 && s[0] == '+' {
        s.drop_first()
    } else {
        s
    };
    if body.len() > 0 && all_digits(body) && digits_val(body) <= u64::MAX {
        Some(digits_val(body) as u64)
    } else {
        None
    }
}

proof fn lemma_digits_val_nonneg(s: Seq<char>)
    requires
        all_digits(s),
    ensures
        digits_val(s) >= 0,
    decreases s.len(),
{
    if s.len() > 0 {
        assert(all_digits(s.drop_last())) by {
            assert(forall|i: int| 0 <= i < s.len() - 1 ==> #[trigger] s.drop_last()[i] == s[i]);
        }
        lemma_digits_val_nonneg(s.drop_last());
        assert(is_digit(s[s.len() - 1]));
    }
}

proof fn lemma_digits_step(s: Seq<char>, i: int)
    requires
        0 <= i < s.len(),
    ensures
        digits_val(s.take(i + 1)) == digits_val(s.take(i)) * 10 + (s[i] as u32 - 48),
{
    let t = s.take(i + 1);
    assert(t.drop_last() =~= s.take(i));
    assert(t.last() == s[i]);
}

proof fn lemma_digits_monotone(s: Seq<char>, m: int, n: int)
    requires
        0 <= m <= n <= s.len(),
        all_digits(s.take(n)),
    ensures
        digits_val(s.take(m)) <= digits_val(s.take(n)),
    decreases n - m,
{
    if m < n {
        lemma_digits_monotone(s, m, n - 1);
        assert(all_digits(s.take(n - 1))) by {
            assert(forall|i: int| 0 <= i < n - 1 ==> #[trigger] s.take(n - 1)[i] == s.take(n)[i]);
        }
        lemma_digits_val_nonneg(s.take(n - 1));
        lemma_digits_step(s, n - 1);
        assert(is_digit(s.take(n)[n - 1]));
    }
}

/// Parses a decimal `u64` exactly as the standard parser does: an optional
/// leading `+`, then digits; anything else, or a value that does not fit,
/// is `None`.
#[verifier::loop_isolation(false)]
pub fn parse_u64(s: &str) -> (r: Option<u64>)
    ensures
        r == spec_parse_u64(s@),
{
    let n = s.unicode_len();
    let start: usize = if n > 0 && s.get_char(0) == '+' {
        1
    } else {
        0
    };
    let ghost body = if s@.len() > 0 && s@[0] == '+' {
        s@.drop_first()
    } else {
        s@
    };
    proof {
        assert(body =~= s@.subrange(start as int, n as int));
    }
    if start >= n {
        return None;
    }
    let mut acc: u64 = 0;
    let mut j: usize = start;
    while j < n
        invariant
            start <= j <= n,
            n == s@.len(),
            start <= 1,
            body == s@.subrange(start as int, n as int),
            all_digits(body.take(j - start)),
            acc == digits_val(body.take(j - start)),
        decreases n - j,
    {
        let c = s.get_char(j);
        let u = c as u32;
        if u < 48 || u > 57 {
            proof {
                assert(body[j - start] == s@[j as int]);
                assert(!is_digit(body[j - start]));
                assert(!all_digits(body));
            }
            return None;
        }
        let d = (u - 48) as u64;
        proof {
            assert(body[j - start] == s@[j as int]);
            assert(all_digits(body.take(j - start + 1))) by {
                assert(forall|i: int|
                    0 <= i < j - start ==> #[trigger] body.take(j - start + 1)[i] == body.take(
                        j - start,
                    )[i]);
                assert(body.take(j - start + 1)[j - start] == body[j - start]);
            }
            lemma_digits_step(body, j - start);
        }
        if acc > (u64::MAX - d) / 10 {
            proof {
                assert(digits_val(body.take(j - start + 1)) > u64::MAX);
                if all_digits(body) && digits_val(body) <= u64::MAX {
                    lemma_digits_monotone(body, j - start + 1, body.len() as int);
                    assert(body.take(body.len() as int) =~= body);
                }
            }
            return None;
        }
        acc = acc * 10 + d;
        j += 1;
    }
    proof {
        assert(body.take(body.len() as int) =~= body);
        lemma_digits_val_nonneg(body);
    }
    Some(acc)
}

/// How a streaming request resolves against a file of a known size.
pub enum RangeOutcome {
    /// No usable range was asked for: serve the whole file.
    Full,
    /// Serve the closed byte range from the first to the second offset.
    Partial(u64, u64),
    /// The range starts beyond its end: it cannot be satisfied.
    Unsatisfiable,
}

/// The characters of `s` before its first `-`, or all of `s`.
pub open spec fn spec_before_dash(s: Seq<char>) -> Seq<char>
    decreases s.len(),
{
    if s.len() == 0 {
        s
    } else if s[0] == '-' {
        Seq::empty()
    } else {
        seq![s[0]] + spec_before_dash(s.drop_first())
    }
}

/// The characters of `s` after its first `-`; empty when there is none.
pub open spec fn spec_after_dash(s: Seq<char>) -> Seq<char>
    decreases s.len(),
{
    if s.len() == 0 {
        s
    } else if s[0] == '-' {
        s.drop_first()
    } else {
        spec_after_dash(s.drop_first())
    }
}

/// True when `s` holds a `-`.
pub open spec fn spec_has_dash(s: Seq<char>) -> bool {
    exists|i: int| 0 <= i < s.len() && s[i] == '-'
}

/// What the streaming handlers serve for one `Range` header value and a
/// non-empty file: the whole file without a header or without the `bytes=`
/// form; otherwise the requested range, its start defaulting to zero, its
/// end defaulting to (and clamped at) the last byte, and unsatisfiable
/// when the start lies beyond the end.
pub open spec fn spec_resolve_range(header: Option<Seq<char>>, file_size: u64) -> RangeOutcome
    recommends
        file_size > 0,
{
    match header {
        None => RangeOutcome::Full,
        Some(v) => if !spec_starts_with(v, "bytes="@) {
            RangeOutcome::Full
        } else {
            let rest = v.skip(6);
            let rs = match spec_parse_u64(spec_before_dash(rest)) {
                Some(x) => x,
                None => 0,
            };
            let re0 = if spec_has_dash(rest) && spec_after_dash(rest).len() > 0 {
                match spec_parse_u64(spec_after_dash(rest)) {
                    Some(x) => x,
                    None => (file_size - 1) as u64,
                }
            } else {
                (file_size - 1) as u64
            };
            let re: u64 = if re0 <= file_size - 1 {
                re0
            } else {
                (file_size - 1) as u64
            };
            if rs > re {
                RangeOutcome::Unsatisfiable
            } else {
                RangeOutcome::Partial(rs, re)
            }
        },
    }
}

proof fn lemma_dash_split(s: Seq<char>, d: int)
    requires
        0 <= d <= s.len(),
        forall|k: int| 0 <= k < d ==> s[k] != '-',
        d < s.len() ==> s[d] == '-',
    ensures
        spec_before_dash(s) =~= s.subrange(0, d),
        spec_has_dash(s) == (d < s.len()),
        d < s.len() ==> spec_after_dash(s) =~= s.subrange(d + 1, s.len() as int),
    decreases d,
{
    if d == 0 {
        if s.len() == 0 {
        } else if s[0] == '-' {
            assert(spec_has_dash(s));
        } else {
        }
    } else {
        assert(s[0] != '-');
        let t = s.drop_first();
        lemma_dash_split(t, d - 1);
        assert(seq![s[0]] + t.subrange(0, d - 1) =~= s.subrange(0, d));
        if d < s.len() {
            assert(t.subrange(d, t.len() as int) =~= s.subrange(d + 1, s.len() as int));
            assert(t[d - 1] == '-');
            assert(spec_has_dash(s));
        } else {
            if spec_has_dash(s) {
                let w = choose|w: int| 0 <= w < s.len() && s[w] == '-';
                if w > 0 {
                    assert(t[w - 1] == '-');
                    assert(spec_has_dash(t));
                }
                assert(false);
            }
        }
    }
}

/// Resolves a `Range` header value against a non-empty file.
#[verifier::loop_isolation(false)]
pub fn resolve_range(header: Option<&str>, file_size: u64) -> (r: RangeOutcome)
    requires
        file_size > 0,
    ensures
        r == spec_resolve_range(
            match header {
                Some(h) => Some(h@),
                None => None,
            },
            file_size,
        ),
{
    let h = match header {
        Some(h) => h,
        None => {
            return RangeOutcome::Full;
        },
    };
    if !crate::strutil::str_starts_with(h, "bytes=") {
        return RangeOutcome::Full;
    }
    proof {
        reveal_strlit("bytes=");
    }
    let n = h.unicode_len();
    let rest = h.substring_char(6, n);
    let ghost restv = h@.skip(6);
    proof {
        assert(rest@ =~= restv);
    }
    let m = rest.unicode_len();
    let mut d: usize = 0;
    while d < m && rest.get_char(d) != '-'
        invariant
            0 <= d <= m,
            m == rest@.len(),
            forall|k: int| 0 <= k < d ==> rest@[k] != '-',
        decreases m - d,
    {
        d += 1;
    }
    proof {
        lemma_dash_split(rest@, d as int);
    }
    let pre = rest.substring_char(0, d);
    proof {
        assert(pre@ =~= rest@.subrange(0, d as int));
    }
    let rs = match parse_u64(pre) {
        Some(x) => x,
        None => 0,
    };
    let re0 = if d < m && d + 1 < m {
        let post = rest.substring_char(d + 1, m);
        proof {
            assert(post@ =~= rest@.subrange(d as int + 1, m as int));
        }
        match parse_u64(post) {
            Some(x) => x,
            None => file_size - 1,
        }
    } else {
        proof {
            if d < m {
                assert(spec_after_dash(rest@).len() == 0);
            }
        }
        file_size - 1
    };
    let re = if re0 <= file_size - 1 {
        re0
    } else {
        file_size - 1
    };
    if rs > re {
        RangeOutcome::Unsatisfiable
    } else {
        RangeOutcome::Partial(rs, re)
    }
}

} // verus!
