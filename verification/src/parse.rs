//! Parsing signed decimal integers out of strings, as the deserialization of
//! string-encoded numeric fields needs it.
use vstd::prelude::*;

verus! {

use vstd::string::{StringSliceAdditionalSpecFns, StrSliceExecFns};

/// An ASCII decimal digit.
pub open spec fn is_digit(b: u8) -> bool {
    0x30 <= b <= 0x39
}

/// A non-empty run of decimal digits.
pub open spec fn is_digits(s: Seq<u8>) -> bool {
    s.len() > 0 && forall|i: int| 0 <= i < s.len() ==> is_digit(#[trigger] s[i])
}

/// The value of a digit run, most significant digit first.
pub open spec fn digits_value(s: Seq<u8>) -> int
    decreases s.len(),
{
    if s.len() == 0 {
        0
    } else {
        digits_value(s.drop_last()) * 10 + (s[s.len() - 1] - 0x30)
    }
}

/// A signed decimal integer literal: an optional sign, then digits.
pub open spec fn is_int_literal(s: Seq<u8>) -> bool {
    if s.len() > 0 && (s[0] == 0x2d || s[0] == 0x2b) {
        is_digits(s.drop_first())
    } else {
        is_digits(s)
    }
}

/// The value of a signed decimal integer literal.
pub open spec fn int_literal_value(s: Seq<u8>) -> int {
    if s.len() > 0 && s[0] == 0x2d {
        -digits_value(s.drop_first())
    } else if s.len() > 0 && s[0] == 0x2b {
        digits_value(s.drop_first())
    } else {
        digits_value(s)
    }
}

pub proof fn lemma_digits_value_nonneg(s: Seq<u8>)
    requires
        forall|i: int| 0 <= i < s.len() ==> is_digit(#[trigger] s[i]),
    ensures
        digits_value(s) >= 0,
    decreases s.len(),
{
    if s.len() > 0 {
        lemma_digits_value_nonneg(s.drop_last());
    }
}

/// More digits never shrink the value: the value of a digit run is at least
/// the value of any of its prefixes.
proof fn lemma_digits_value_prefix(s: Seq<u8>, i: int)
    requires
        forall|j: int| 0 <= j < s.len() ==> is_digit(#[trigger] s[j]),
        0 <= i <= s.len(),
    ensures
        digits_value(s) >= digits_value(s.take(i)),
    decreases s.len() - i,
{
    if i < s.len() {
        lemma_digits_value_prefix(s, i + 1);
        assert(s.take(i + 1).drop_last() =~= s.take(i));
        assert(digits_value(s.take(i + 1)) == digits_value(s.take(i)) * 10 + (s[i] - 0x30));
        lemma_digits_value_nonneg(s.take(i));
    } else {
        assert(s.take(i) =~= s);
    }
}

/// Parses a signed decimal integer. Returns the value exactly when the whole
/// string is a well-formed literal whose value fits in an `i64`.
pub fn parse_i64(s: &str) -> (r: Option<i64>)
    ensures
        r is Some <==> is_int_literal(s.spec_bytes()) && i64::MIN <= int_literal_value(
            s.spec_bytes(),
        ) <= i64::MAX,
        r is Some ==> r->0 == int_literal_value(s.spec_bytes()),
{
    let bytes = s.as_bytes();
    let ghost w = s.spec_bytes();
    let n = bytes.len();
    if n == 0 {
        return None;
    }
    let negative = bytes[0] == 0x2d;
    let signed = negative || bytes[0] == 0x2b;
    let start: usize = if signed {
        1
    } else {
        0
    };
    let ghost digits = if signed {
        w.drop_first()
    } else {
        w
    };
    proof {
        assert(digits =~= w.subrange(start as int, n as int));
    }
    if start >= n {
        // A bare sign has no digits.
        proof {
            if signed {
                assert(digits.len() == 0);
                assert(!is_int_literal(w));
            }
        }
        return None;
    }
    // The largest magnitude that can still fit: 2^63 for a negative literal,
    // 2^63 - 1 otherwise.
    let limit: u64 = if negative {
        9223372036854775808
    } else {
        9223372036854775807
    };
    let mut acc: u64 = 0;
    let mut i: usize = start;
    proof {
        assert(digits.take(0) =~= Seq::<u8>::empty());
        lemma_digits_value_nonneg(digits.take(0));
    }
    while i < n
        invariant
            start <= i <= n,
            0 < n == bytes@.len(),
            bytes@ == w,
            w == s.spec_bytes(),
            digits == w.subrange(start as int, n as int),
            start == if signed { 1int } else { 0int },
            signed == (w[0] == 0x2d || w[0] == 0x2b),
            negative == (w[0] == 0x2d),
            limit == if negative { 9223372036854775808u64 } else { 9223372036854775807u64 },
            forall|j: int| start <= j < i ==> is_digit(#[trigger] w[j]),
            acc == digits_value(digits.take(i - start)),
            acc <= limit,
        decreases n - i,
    {
        let b = bytes[i];
        if b < 0x30 || b > 0x39 {
            proof {
                assert(digits[i - start] == b);
                assert(!is_digit(b));
                assert(!is_digits(digits));
                if signed {
                    assert(w.drop_first() =~= digits);
                    assert(!is_int_literal(w));
                } else {
                    assert(!is_int_literal(w));
                }
            }
            return None;
        }
        let d = (b - 0x30) as u64;
        proof {
            assert(digits.take(i + 1 - start).drop_last() =~= digits.take(i - start));
            assert(digits_value(digits.take(i + 1 - start)) == digits_value(
                digits.take(i - start),
            ) * 10 + (b - 0x30));
        }
        if acc > limit / 10 || 10 * acc + d > limit {
            // The value through this digit already exceeds the limit, and
            // further digits cannot shrink it.
            proof {
                assert(limit == 10 * (limit / 10) + limit % 10);
                assert(10 * acc + d > limit);
                assert(digits_value(digits.take(i + 1 - start)) > limit);
                if signed {
                    assert(w.drop_first() =~= digits);
                } else {
                    assert(w =~= digits);
                }
                if is_int_literal(w) {
                    assert(is_digits(digits));
                    lemma_digits_value_prefix(digits, i + 1 - start);
                    assert(digits_value(digits) > limit);
                    if negative {
                        assert(int_literal_value(w) == -digits_value(digits));
                        assert(int_literal_value(w) < i64::MIN);
                    } else {
                        assert(int_literal_value(w) == digits_value(digits));
                        assert(int_literal_value(w) > i64::MAX);
                    }
                }
            }
            return None;
        }
        acc = 10 * acc + d;
        i = i + 1;
    }
    proof {
        assert(digits.take(n - start) =~= digits);
        assert(is_digits(digits));
        if signed {
            assert(w.drop_first() =~= digits);
        } else {
            assert(w =~= digits);
        }
        assert(is_int_literal(w));
        assert(acc == digits_value(digits));
    }
    if negative {
        if acc == 9223372036854775808 {
            Some(i64::MIN)
        } else {
            Some(-(acc as i64))
        }
    } else {
        Some(acc as i64)
    }
}

} // verus!
