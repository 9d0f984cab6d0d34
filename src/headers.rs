//! The response headers that the library reads, held as raw bytes, and the rules by which a
//! rate-limit header value becomes an integer.

use vstd::prelude::*;

use crate::error::Error;

verus! {

/// The response headers that the exchange logic consults. Each field holds the raw bytes of the
/// header's value, or `None` when the response did not carry that header.
#[derive(Debug, Clone)]
pub struct Headers {
    /// `X-Rate-Limit-Limit`.
    pub rate_limit_limit: Option<Vec<u8>>,
    /// `X-Rate-Limit-Remaining`.
    pub rate_limit_remaining: Option<Vec<u8>>,
    /// `X-Rate-Limit-Reset`.
    pub rate_limit_reset: Option<Vec<u8>>,
    /// `Content-Length`.
    pub content_length: Option<Vec<u8>>,
}

impl Headers {
    /// A header set that carries none of the headers the library reads.
    pub fn new() -> (r: Headers)
        ensures
            r.rate_limit_limit is None,
            r.rate_limit_remaining is None,
            r.rate_limit_reset is None,
            r.content_length is None,
    {
        Headers {
            rate_limit_limit: None,
            rate_limit_remaining: None,
            rate_limit_reset: None,
            content_length: None,
        }
    }
}

/// Whether a header byte may appear in a header value read as text: visible ASCII or a tab.
pub open spec fn is_visible_ascii(b: u8) -> bool {
    (32 <= b && b < 127) || b == 9
}

/// Whether every byte of a header value may appear in text.
pub open spec fn is_text_value(s: Seq<u8>) -> bool {
    forall|i: int| 0 <= i < s.len() ==> is_visible_ascii(#[trigger] s[i])
}

/// Whether a byte is an ASCII decimal digit.
pub open spec fn is_digit(b: u8) -> bool {
    48 <= b && b <= 57
}

/// Whether every byte of `s` is an ASCII decimal digit.
pub open spec fn all_digits(s: Seq<u8>) -> bool {
    forall|i: int| 0 <= i < s.len() ==> is_digit(#[trigger] s[i])
}

/// The value of a run of decimal digits, most significant first.
pub open spec fn digits_value(s: Seq<u8>) -> int
    decreases s.len(),
{
    if s.len() == 0 {
        0
    } else {
        digits_value(s.drop_last()) * 10 + (s.last() - 48)
    }
}

/// The sign and the digits of a decimal integer written with an optional leading `+` or `-`.
pub open spec fn split_sign(s: Seq<u8>) -> (bool, Seq<u8>) {
    if s.len() > 0 && s[0] == 45 {
        (true, s.drop_first())
    } else if s.len() > 0 && s[0] == 43 {
        (false, s.drop_first())
    } else {
        (false, s)
    }
}

/// The 32-bit integer that `s` writes in decimal, with an optional leading sign; `None` when `s`
/// has no digits, holds a byte that is not a digit, or writes a value out of range.
pub open spec fn decimal_i32(s: Seq<u8>) -> Option<i32> {
    let (neg, d) = split_sign(s);
    let v = if neg {
        -digits_value(d)
    } else {
        digits_value(d)
    };
    if d.len() > 0 && all_digits(d) && i32::MIN <= v <= i32::MAX {
        Some(v as i32)
    } else {
        None
    }
}

proof fn lemma_digits_value_nonneg(s: Seq<u8>)
    requires
        all_digits(s),
    ensures
        digits_value(s) >= 0,
    decreases s.len(),
{
    if s.len() > 0 {
        lemma_digits_value_nonneg(s.drop_last());
    }
}

/// A prefix of a run of digits never has a larger value than the whole run.
proof fn lemma_digits_value_prefix(s: Seq<u8>, k: int)
    requires
        all_digits(s),
        0 <= k <= s.len(),
    ensures
        digits_value(s.subrange(0, k)) <= digits_value(s),
    decreases s.len() - k,
{
    if k < s.len() {
        lemma_digits_value_prefix(s, k + 1);
        let p = s.subrange(0, k + 1);
        assert(p.drop_last() =~= s.subrange(0, k));
        lemma_digits_value_nonneg(s.subrange(0, k));
    } else {
        assert(s.subrange(0, k) =~= s);
    }
}

/// Whether every byte of `value` may appear in text.
fn text_value(value: &Vec<u8>) -> (r: bool)
    ensures
        r == is_text_value(value@),
{
    let mut i: usize = 0;
    while i < value.len()
        invariant
            i <= value@.len(),
            forall|j: int| 0 <= j < i ==> is_visible_ascii(#[trigger] value@[j]),
        decreases value.len() - i,
    {
        let b = value[i];
        if !((32 <= b && b < 127) || b == 9) {
            return false;
        }
        i = i + 1;
    }
    true
}

/// Read a 32-bit decimal integer with an optional leading sign.
pub fn parse_i32(s: &[u8]) -> (r: Option<i32>)
    ensures
        r == decimal_i32(s@),
{
    let mut start: usize = 0;
    let mut neg = false;
    if s.len() > 0 && s[0] == 45 {
        neg = true;
        start = 1;
    } else if s.len() > 0 && s[0] == 43 {
        start = 1;
    }
    let ghost d = split_sign(s@).1;
    proof {
        assert(d =~= s@.subrange(start as int, s@.len() as int));
        assert(neg == split_sign(s@).0);
    }
    if start == s.len() {
        return None;
    }
    let mut acc: i64 = 0;
    let mut i: usize = start;
    while i < s.len()
        invariant
            start <= i <= s@.len(),
            d == s@.subrange(start as int, s@.len() as int),
            d == split_sign(s@).1,
            neg == split_sign(s@).0,
            all_digits(d.subrange(0, i - start)),
            acc as int == digits_value(d.subrange(0, i - start)),
            0 <= acc <= 2147483648,
        decreases s.len() - i,
    {
        let b = s[i];
        if b < 48 || b > 57 {
            proof {
                assert(d[i - start] == b);
                assert(!is_digit(d[i - start]));
                assert(!all_digits(d));
            }
            return None;
        }
        proof {
            let p = d.subrange(0, i + 1 - start);
            assert(p.drop_last() =~= d.subrange(0, i - start));
            assert(p.last() == b);
        }
        acc = acc * 10 + (b - 48) as i64;
        i = i + 1;
        assert(acc as int == digits_value(d.subrange(0, i - start)));
        if acc > 2147483648 {
            proof {
                if all_digits(d) {
                    lemma_digits_value_prefix(d, i - start);
                    assert(digits_value(d) > 2147483648);
                }
            }
            return None;
        }
    }
    proof {
        assert(d.subrange(0, i - start) =~= d);
    }
    if neg {
        Some((-acc) as i32)
    } else if acc <= 2147483647 {
        Some(acc as i32)
    } else {
        None
    }
}

/// What an optional rate-limit header reads as: absent gives `Ok(None)`; a value that is not
/// text gives `HeaderConvert`; text that is not a 32-bit decimal integer gives `HeaderParse`.
pub open spec fn header_i32(value: Option<Vec<u8>>) -> Result<Option<i32>, Error> {
    match value {
        None => Ok(None),
        Some(v) => if !is_text_value(v@) {
            Err(Error::HeaderConvert)
        } else if decimal_i32(v@) is None {
            Err(Error::HeaderParse)
        } else {
            Ok(Some(decimal_i32(v@)->0))
        },
    }
}

/// Read an optional rate-limit header.
pub fn rate_limit(value: &Option<Vec<u8>>) -> (r: Result<Option<i32>, Error>)
    ensures
        r == header_i32(*value),
{
    match value {
        None => Ok(None),
        Some(v) => {
            if !text_value(v) {
                return Err(Error::HeaderConvert);
            }
            match parse_i32(v.as_slice()) {
                Some(n) => Ok(Some(n)),
                None => Err(Error::HeaderParse),
            }
        },
    }
}

} // verus!
