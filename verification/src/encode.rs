//! Byte-level text building: hexadecimal and percent encodings, decimal
//! rendering of integers, slash trimming, and byte-wise lexicographic order.
//!
//! Everything here works on UTF-8 bytes (`Vec<u8>` with `Seq<u8>` views); the
//! conversion back to `String` happens once, in [`string_from_utf8`].
use vstd::prelude::*;

verus! {

use vstd::utf8::{valid_utf8, decode_utf8, partial_valid_utf8, partial_valid_utf8_extend_ascii_block, encode_utf8};

/// All bytes are in the ASCII range.
pub open spec fn is_ascii_bytes(s: Seq<u8>) -> bool {
    forall|i: int| 0 <= i < s.len() ==> s[i] < 0x80
}

/// A sequence of ASCII bytes is valid UTF-8.
pub proof fn lemma_ascii_bytes_valid_utf8(s: Seq<u8>)
    requires
        is_ascii_bytes(s),
    ensures
        valid_utf8(s),
{
    assert(partial_valid_utf8(s, 0)) by {
        assert(s.subrange(0, 0) =~= Seq::<u8>::empty());
    }
    assert forall|i: int| 0 <= 0 <= i < s.len() <= s.len() implies #[trigger] vstd::utf8::is_leading_byte_width_1(
        s[i],
    ) by {
        assert(s[i] < 0x80);
    }
    partial_valid_utf8_extend_ascii_block(s, 0, s.len() as int);
    assert(s.subrange(0, s.len() as int) =~= s);
}

/// Relies on `String::from_utf8`: a vector of valid UTF-8 bytes becomes the
/// string whose encoding is exactly those bytes.
#[verifier::external_body]
pub(crate) fn string_from_utf8(v: Vec<u8>) -> (r: String)
    requires
        valid_utf8(v@),
    ensures
        encode_utf8(r@) == v@,
        r@ == decode_utf8(v@),
{
    String::from_utf8(v).unwrap_or_default()
}

/// The lowercase hexadecimal digit for a value below 16.
pub open spec fn hex_digit(n: int) -> u8
    recommends
        0 <= n < 16,
{
    if n < 10 {
        (0x30 + n) as u8
    } else {
        (0x57 + n) as u8
    }
}

/// The uppercase hexadecimal digit for a value below 16.
pub open spec fn hex_digit_upper(n: int) -> u8
    recommends
        0 <= n < 16,
{
    if n < 10 {
        (0x30 + n) as u8
    } else {
        (0x37 + n) as u8
    }
}

/// Lowercase hexadecimal rendering of a byte sequence: two digits per byte.
pub open spec fn hex_of(s: Seq<u8>) -> Seq<u8>
    decreases s.len(),
{
    if s.len() == 0 {
        Seq::empty()
    } else {
        seq![hex_digit(s[0] as int / 16), hex_digit(s[0] as int % 16)] + hex_of(s.drop_first())
    }
}

pub proof fn lemma_hex_of_push(s: Seq<u8>, b: u8)
    ensures
        hex_of(s.push(b)) == hex_of(s) + seq![hex_digit(b as int / 16), hex_digit(b as int % 16)],
    decreases s.len(),
{
    if s.len() == 0 {
        assert(s.push(b)[0] == b);
        assert(s.push(b).drop_first() =~= Seq::<u8>::empty());
        assert(hex_of(s.push(b).drop_first()) =~= Seq::<u8>::empty());
        assert(hex_of(s.push(b)) =~= seq![hex_digit(b as int / 16), hex_digit(b as int % 16)] + hex_of(s.push(b).drop_first()));
        assert(hex_of(s) =~= Seq::<u8>::empty());
        assert(hex_of(s.push(b)) =~= hex_of(s) + seq![hex_digit(b as int / 16), hex_digit(b as int % 16)]);
    } else {
        assert(s.push(b)[0] == s[0]);
        assert(s.push(b).drop_first() =~= s.drop_first().push(b));
        lemma_hex_of_push(s.drop_first(), b);
        assert(hex_of(s.push(b)) =~= hex_of(s) + seq![hex_digit(b as int / 16), hex_digit(b as int % 16)]);
    }
}

pub proof fn lemma_hex_of_len(s: Seq<u8>)
    ensures
        hex_of(s).len() == 2 * s.len(),
    decreases s.len(),
{
    if s.len() > 0 {
        lemma_hex_of_len(s.drop_first());
    }
}

/// Lowercase hexadecimal encoding of a byte slice.
pub fn hex_encode(v: &[u8]) -> (r: Vec<u8>)
    ensures
        r@ == hex_of(v@),
        is_ascii_bytes(r@),
{
    let mut r: Vec<u8> = Vec::new();
    let mut i: usize = 0;
    proof {
        assert(v@.take(0) =~= Seq::<u8>::empty());
    }
    while i < v.len()
        invariant
            i <= v.len(),
            r@ == hex_of(v@.take(i as int)),
            is_ascii_bytes(r@),
        decreases v.len() - i,
    {
        let b = v[i];
        let hi = b / 16;
        let lo = b % 16;
        r.push(if hi < 10 { 0x30 + hi } else { 0x57 + hi });
        r.push(if lo < 10 { 0x30 + lo } else { 0x57 + lo });
        proof {
            lemma_hex_of_push(v@.take(i as int), b);
            assert(v@.take(i + 1) =~= v@.take(i as int).push(b));
            assert(r@ =~= hex_of(v@.take(i + 1)));
        }
        i = i + 1;
    }
    proof {
        assert(v@.take(v@.len() as int) =~= v@);
    }
    r
}

/// Decimal rendering of a non-negative integer, most significant digit first.
pub open spec fn dec_of(n: int) -> Seq<u8>
    recommends
        n >= 0,
    decreases n,
{
    if n < 10 {
        seq![(0x30 + if n >= 0 { n } else { 0 }) as u8]
    } else {
        dec_of(n / 10) + seq![(0x30 + n % 10) as u8]
    }
}

/// Decimal rendering of a signed integer: a leading minus sign if negative.
pub open spec fn dec_i64_of(n: int) -> Seq<u8> {
    if n >= 0 {
        dec_of(n)
    } else {
        seq![0x2du8] + dec_of(-n)
    }
}

pub proof fn lemma_dec_of_ascii(n: int)
    requires
        n >= 0,
    ensures
        is_ascii_bytes(dec_of(n)),
        dec_of(n).len() >= 1,
    decreases n,
{
    if n >= 10 {
        lemma_dec_of_ascii(n / 10);
    }
}

/// Renders an unsigned integer in decimal.
pub fn u64_to_dec(n: u64) -> (r: Vec<u8>)
    ensures
        r@ == dec_of(n as int),
        is_ascii_bytes(r@),
    decreases n,
{
    proof {
        lemma_dec_of_ascii(n as int);
    }
    if n < 10 {
        let mut r: Vec<u8> = Vec::new();
        r.push(0x30 + (n as u8));
        proof {
            assert(r@ =~= dec_of(n as int));
        }
        r
    } else {
        let mut r = u64_to_dec(n / 10);
        r.push(0x30 + ((n % 10) as u8));
        proof {
            assert(r@ =~= dec_of(n as int));
        }
        r
    }
}

/// Renders a signed integer in decimal, with a minus sign when negative.
pub fn i64_to_dec(n: i64) -> (r: Vec<u8>)
    ensures
        r@ == dec_i64_of(n as int),
        is_ascii_bytes(r@),
{
    if n >= 0 {
        u64_to_dec(n as u64)
    } else {
        let mag: u64 = ((-(n + 1)) as u64) + 1;
        assert(mag == -(n as int));
        let digits = u64_to_dec(mag);
        let mut r: Vec<u8> = Vec::new();
        r.push(0x2d);
        let mut j: usize = 0;
        while j < digits.len()
            invariant
                j <= digits.len(),
                digits@ == dec_of(-(n as int)),
                r@ == seq![0x2du8] + digits@.take(j as int),
            decreases digits.len() - j,
        {
            let d = digits[j];
            r.push(d);
            proof {
                assert(digits@.take(j + 1) =~= digits@.take(j as int).push(d));
                assert(r@ =~= seq![0x2du8] + digits@.take(j + 1));
            }
            j = j + 1;
        }
        proof {
            assert(digits@.take(digits@.len() as int) =~= digits@);
            lemma_dec_of_ascii(-(n as int));
        }
        r
    }
}

/// True for the bytes that percent encoding leaves as they are:
/// ASCII letters, digits, `-`, `_`, `.` and `~`.
pub open spec fn is_unreserved(b: u8) -> bool {
    (0x41 <= b <= 0x5a) || (0x61 <= b <= 0x7a) || (0x30 <= b <= 0x39) || b == 0x2d || b == 0x5f
        || b == 0x2e || b == 0x7e
}

/// The percent encoding of one byte: itself if unreserved, else `%` and two
/// uppercase hexadecimal digits.
pub open spec fn pct_byte(b: u8) -> Seq<u8> {
    if is_unreserved(b) {
        seq![b]
    } else {
        seq![0x25u8, hex_digit_upper(b as int / 16), hex_digit_upper(b as int % 16)]
    }
}

/// Percent encoding of a byte sequence.
pub open spec fn pct_of(s: Seq<u8>) -> Seq<u8>
    decreases s.len(),
{
    if s.len() == 0 {
        Seq::empty()
    } else {
        pct_byte(s[0]) + pct_of(s.drop_first())
    }
}

pub proof fn lemma_pct_of_push(s: Seq<u8>, b: u8)
    ensures
        pct_of(s.push(b)) == pct_of(s) + pct_byte(b),
    decreases s.len(),
{
    if s.len() == 0 {
        assert(s.push(b)[0] == b);
        assert(s.push(b).drop_first() =~= Seq::<u8>::empty());
        assert(pct_of(s.push(b).drop_first()) =~= Seq::<u8>::empty());
        assert(pct_of(s.push(b)) =~= pct_byte(b) + pct_of(s.push(b).drop_first()));
        assert(pct_of(s) =~= Seq::<u8>::empty());
        assert(pct_of(s.push(b)) =~= pct_of(s) + pct_byte(b));
    } else {
        assert(s.push(b)[0] == s[0]);
        assert(s.push(b).drop_first() =~= s.drop_first().push(b));
        lemma_pct_of_push(s.drop_first(), b);
        assert(pct_of(s.push(b)) =~= pct_of(s) + pct_byte(b));
    }
}

/// Percent encoding of a byte slice, uppercase digits, unreserved bytes kept.
pub fn pct_encode(v: &[u8]) -> (r: Vec<u8>)
    ensures
        r@ == pct_of(v@),
        is_ascii_bytes(r@),
{
    let mut r: Vec<u8> = Vec::new();
    let mut i: usize = 0;
    proof {
        assert(v@.take(0) =~= Seq::<u8>::empty());
    }
    while i < v.len()
        invariant
            i <= v.len(),
            r@ == pct_of(v@.take(i as int)),
            is_ascii_bytes(r@),
        decreases v.len() - i,
    {
        let b = v[i];
        let unreserved = (0x41 <= b && b <= 0x5a) || (0x61 <= b && b <= 0x7a) || (0x30 <= b && b
            <= 0x39) || b == 0x2d || b == 0x5f || b == 0x2e || b == 0x7e;
        if unreserved {
            r.push(b);
        } else {
            let hi = b / 16;
            let lo = b % 16;
            r.push(0x25);
            r.push(if hi < 10 { 0x30 + hi } else { 0x37 + hi });
            r.push(if lo < 10 { 0x30 + lo } else { 0x37 + lo });
        }
        proof {
            lemma_pct_of_push(v@.take(i as int), b);
            assert(v@.take(i + 1) =~= v@.take(i as int).push(b));
            assert(r@ =~= pct_of(v@.take(i + 1)));
        }
        i = i + 1;
    }
    proof {
        assert(v@.take(v@.len() as int) =~= v@);
    }
    r
}

/// True for an ASCII hexadecimal digit, either case.
pub open spec fn is_hex_digit_byte(b: u8) -> bool {
    (0x30 <= b <= 0x39) || (0x41 <= b <= 0x46) || (0x61 <= b <= 0x66)
}

/// The numerical value of an ASCII hexadecimal digit.
pub open spec fn hex_val(b: u8) -> int
    recommends
        is_hex_digit_byte(b),
{
    if 0x30 <= b <= 0x39 {
        b - 0x30
    } else if 0x41 <= b <= 0x46 {
        b - 0x37
    } else {
        b - 0x57
    }
}

/// Percent decoding: each `%` followed by two hexadecimal digits becomes the
/// byte they denote; every other byte stands for itself.
pub open spec fn pct_decode(s: Seq<u8>) -> Seq<u8>
    decreases s.len(),
{
    if s.len() == 0 {
        Seq::empty()
    } else if s[0] == 0x25 && s.len() >= 3 && is_hex_digit_byte(s[1]) && is_hex_digit_byte(s[2]) {
        seq![(hex_val(s[1]) * 16 + hex_val(s[2])) as u8] + pct_decode(s.skip(3))
    } else {
        seq![s[0]] + pct_decode(s.skip(1))
    }
}

/// Decoding a sequence that starts with an unescaped byte decodes the byte
/// to itself and goes on with the rest.
pub proof fn lemma_pct_decode_unescaped_head(b: u8, t: Seq<u8>)
    requires
        b != 0x25,
    ensures
        pct_decode(seq![b] + t) == seq![b] + pct_decode(t),
{
    assert((seq![b] + t)[0] == b);
    assert((seq![b] + t).skip(1) =~= t);
    assert(pct_decode(seq![b] + t) =~= seq![b] + pct_decode(t));
}

/// Decoding an encoded sequence followed by anything gives the original
/// bytes back and decodes the remainder on its own.
pub proof fn lemma_pct_decode_concat(s: Seq<u8>, t: Seq<u8>)
    ensures
        pct_decode(pct_of(s) + t) == s + pct_decode(t),
    decreases s.len(),
{
    if s.len() == 0 {
        assert(pct_of(s) + t =~= t);
        assert(pct_decode(pct_of(s) + t) =~= s + pct_decode(t));
    } else {
        let b = s[0];
        let rest = s.drop_first();
        let u = pct_of(s) + t;
        lemma_pct_decode_concat(rest, t);
        if is_unreserved(b) {
            assert(u[0] == b);
            assert(b != 0x25);
            assert(u.skip(1) =~= pct_of(rest) + t);
            assert(pct_decode(u) =~= s + pct_decode(t));
        } else {
            let hi = hex_digit_upper(b as int / 16);
            let lo = hex_digit_upper(b as int % 16);
            assert(u[0] == 0x25 && u[1] == hi && u[2] == lo);
            assert(is_hex_digit_byte(hi) && hex_val(hi) == b as int / 16);
            assert(is_hex_digit_byte(lo) && hex_val(lo) == b as int % 16);
            assert(hex_val(hi) * 16 + hex_val(lo) == b);
            assert(u.skip(3) =~= pct_of(rest) + t);
            assert(pct_decode(u) =~= s + pct_decode(t));
        }
    }
}

/// Percent encoding loses nothing: decoding an encoded sequence gives the
/// original bytes back.
pub proof fn lemma_pct_round_trip(s: Seq<u8>)
    ensures
        pct_decode(pct_of(s)) == s,
{
    lemma_pct_decode_concat(s, Seq::empty());
    assert(pct_of(s) + Seq::<u8>::empty() =~= pct_of(s));
    assert(pct_decode(Seq::<u8>::empty()) =~= Seq::<u8>::empty());
    assert(s + pct_decode(Seq::<u8>::empty()) =~= s);
}

/// The sequence without its leading run of byte `b`.
pub open spec fn trim_leading(s: Seq<u8>, b: u8) -> Seq<u8>
    decreases s.len(),
{
    if s.len() > 0 && s[0] == b {
        trim_leading(s.drop_first(), b)
    } else {
        s
    }
}

/// The sequence without its trailing run of byte `b`.
pub open spec fn trim_trailing(s: Seq<u8>, b: u8) -> Seq<u8>
    decreases s.len(),
{
    if s.len() > 0 && s[s.len() - 1] == b {
        trim_trailing(s.drop_last(), b)
    } else {
        s
    }
}

proof fn lemma_trim_leading_skip(s: Seq<u8>, b: u8, i: int)
    requires
        0 <= i <= s.len(),
        forall|j: int| 0 <= j < i ==> s[j] == b,
        i == s.len() || s[i] != b,
    ensures
        trim_leading(s, b) == s.skip(i),
    decreases i,
{
    if i == 0 {
        assert(s.skip(0) =~= s);
    } else {
        assert(s[0] == b);
        lemma_trim_leading_skip(s.drop_first(), b, i - 1);
        assert(s.drop_first().skip(i - 1) =~= s.skip(i));
    }
}

/// Removes every leading occurrence of `b`.
pub fn trim_leading_bytes(v: &[u8], b: u8) -> (r: Vec<u8>)
    ensures
        r@ == trim_leading(v@, b),
{
    let mut i: usize = 0;
    while i < v.len() && v[i] == b
        invariant
            i <= v.len(),
            forall|j: int| 0 <= j < i ==> v@[j] == b,
        decreases v.len() - i,
    {
        i = i + 1;
    }
    proof {
        lemma_trim_leading_skip(v@, b, i as int);
    }
    let mut r: Vec<u8> = Vec::new();
    let mut k: usize = i;
    while k < v.len()
        invariant
            i <= k <= v.len(),
            r@ == v@.subrange(i as int, k as int),
        decreases v.len() - k,
    {
        let x = v[k];
        r.push(x);
        proof {
            assert(v@.subrange(i as int, k + 1) =~= v@.subrange(i as int, k as int).push(x));
        }
        k = k + 1;
    }
    proof {
        assert(v@.subrange(i as int, v@.len() as int) =~= v@.skip(i as int));
    }
    r
}

proof fn lemma_trim_trailing_take(s: Seq<u8>, b: u8, i: int)
    requires
        0 <= i <= s.len(),
        forall|j: int| i <= j < s.len() ==> s[j] == b,
        i == 0 || s[i - 1] != b,
    ensures
        trim_trailing(s, b) == s.take(i),
    decreases s.len(),
{
    if i == s.len() {
        assert(s.take(i) =~= s);
    } else {
        assert(s[s.len() - 1] == b);
        lemma_trim_trailing_take(s.drop_last(), b, i);
        assert(s.drop_last().take(i) =~= s.take(i));
    }
}

/// Removes every trailing occurrence of `b`.
pub fn trim_trailing_bytes(v: &[u8], b: u8) -> (r: Vec<u8>)
    ensures
        r@ == trim_trailing(v@, b),
{
    let mut e: usize = v.len();
    while e > 0 && v[e - 1] == b
        invariant
            e <= v.len(),
            forall|j: int| e <= j < v@.len() ==> v@[j] == b,
        decreases e,
    {
        e = e - 1;
    }
    proof {
        lemma_trim_trailing_take(v@, b, e as int);
    }
    let mut r: Vec<u8> = Vec::new();
    let mut k: usize = 0;
    while k < e
        invariant
            k <= e <= v.len(),
            r@ == v@.take(k as int),
        decreases e - k,
    {
        let x = v[k];
        r.push(x);
        proof {
            assert(v@.take(k + 1) =~= v@.take(k as int).push(x));
        }
        k = k + 1;
    }
    r
}

/// Byte-wise lexicographic strict order, the order of Rust's `str` comparison.
pub open spec fn lex_lt(a: Seq<u8>, b: Seq<u8>) -> bool
    decreases a.len(),
{
    if b.len() == 0 {
        false
    } else if a.len() == 0 {
        true
    } else if a[0] < b[0] {
        true
    } else if a[0] > b[0] {
        false
    } else {
        lex_lt(a.drop_first(), b.drop_first())
    }
}

/// Of two byte sequences, exactly one of: the first is smaller, they are
/// equal, the second is smaller.
pub proof fn lemma_lex_trichotomy(a: Seq<u8>, b: Seq<u8>)
    ensures
        lex_lt(a, b) || lex_lt(b, a) || a == b,
        lex_lt(a, b) ==> !lex_lt(b, a) && a != b,
        lex_lt(b, a) ==> !lex_lt(a, b) && a != b,
    decreases a.len() + b.len(),
{
    if a.len() == 0 && b.len() == 0 {
        assert(a =~= b);
    } else if a.len() == 0 || b.len() == 0 {
    } else if a[0] == b[0] {
        lemma_lex_trichotomy(a.drop_first(), b.drop_first());
        if a.drop_first() == b.drop_first() {
            assert(a.len() == b.len());
            assert forall|i: int| 0 <= i < a.len() implies a[i] == b[i] by {
                if i > 0 {
                    assert(a.drop_first()[i - 1] == b.drop_first()[i - 1]);
                }
            }
            assert(a =~= b);
        }
        if a == b {
            assert(a.drop_first() =~= b.drop_first());
        }
    } else {
        assert(a != b) by {
            if a == b {
                assert(a[0] == b[0]);
            }
        }
    }
}

proof fn lemma_lex_lt_common_prefix(a: Seq<u8>, b: Seq<u8>, i: int)
    requires
        0 <= i <= a.len(),
        i <= b.len(),
        forall|j: int| 0 <= j < i ==> a[j] == b[j],
    ensures
        lex_lt(a, b) == lex_lt(a.skip(i), b.skip(i)),
    decreases i,
{
    if i > 0 {
        assert(a.len() > 0 && b.len() > 0 && a[0] == b[0]);
        lemma_lex_lt_common_prefix(a.drop_first(), b.drop_first(), i - 1);
        assert(a.drop_first().skip(i - 1) =~= a.skip(i));
        assert(b.drop_first().skip(i - 1) =~= b.skip(i));
    } else {
        assert(a.skip(0) =~= a);
        assert(b.skip(0) =~= b);
    }
}

/// Compares two byte slices in lexicographic order.
pub fn bytes_lt(a: &[u8], b: &[u8]) -> (r: bool)
    ensures
        r == lex_lt(a@, b@),
{
    let mut i: usize = 0;
    loop
        invariant
            i <= a.len(),
            i <= b.len(),
            forall|j: int| 0 <= j < i ==> a@[j] == b@[j],
        decreases a.len() - i,
    {
        proof {
            lemma_lex_lt_common_prefix(a@, b@, i as int);
        }
        if i >= a.len() {
            proof {
                assert(a@.skip(i as int) =~= Seq::<u8>::empty());
            }
            return i < b.len();
        }
        if i >= b.len() {
            proof {
                assert(b@.skip(i as int) =~= Seq::<u8>::empty());
            }
            return false;
        }
        let x = a[i];
        let y = b[i];
        if x < y {
            proof {
                assert(a@.skip(i as int)[0] == x && b@.skip(i as int)[0] == y);
            }
            return true;
        }
        if x > y {
            proof {
                assert(a@.skip(i as int)[0] == x && b@.skip(i as int)[0] == y);
            }
            return false;
        }
        i = i + 1;
    }
}

/// Tests two byte slices for equality.
pub fn bytes_eq(a: &[u8], b: &[u8]) -> (r: bool)
    ensures
        r == (a@ == b@),
{
    if a.len() != b.len() {
        proof {
            if a@ == b@ {
                assert(a@.len() == b@.len());
            }
        }
        return false;
    }
    let mut i: usize = 0;
    while i < a.len()
        invariant
            i <= a.len(),
            a@.len() == b@.len(),
            forall|j: int| 0 <= j < i ==> a@[j] == b@[j],
        decreases a.len() - i,
    {
        if a[i] != b[i] {
            proof {
                if a@ == b@ {
                    assert(a@[i as int] == b@[i as int]);
                }
            }
            return false;
        }
        i = i + 1;
    }
    proof {
        assert(a@ =~= b@);
    }
    true
}

/// Trimming a leading run of an ASCII byte off a valid UTF-8 sequence leaves
/// a valid UTF-8 sequence.
pub proof fn lemma_trim_leading_valid_utf8(s: Seq<u8>, b: u8)
    requires
        valid_utf8(s),
        b < 0x80,
    ensures
        valid_utf8(trim_leading(s, b)),
    decreases s.len(),
{
    if s.len() > 0 && s[0] == b {
        assert(vstd::utf8::valid_first_scalar(s));
        assert(vstd::utf8::length_of_first_scalar(s) == 1);
        assert(vstd::utf8::pop_first_scalar(s) =~= s.drop_first());
        assert(valid_utf8(s.drop_first()));
        lemma_trim_leading_valid_utf8(s.drop_first(), b);
    }
}

/// Trimming a trailing run of an ASCII byte off a valid UTF-8 sequence
/// leaves a valid UTF-8 sequence.
pub proof fn lemma_trim_trailing_valid_utf8(s: Seq<u8>, b: u8)
    requires
        valid_utf8(s),
        b < 0x80,
    ensures
        valid_utf8(trim_trailing(s, b)),
    decreases s.len(),
{
    if s.len() > 0 && s[s.len() - 1] == b {
        let n = s.len() as int;
        vstd::utf8::is_char_boundary_iff_not_is_continuation_byte(s, n - 1);
        assert(!vstd::utf8::is_continuation_byte(s[n - 1]));
        vstd::utf8::valid_utf8_split(s, n - 1);
        assert(s.subrange(0, n - 1) =~= s.drop_last());
        assert(valid_utf8(s.drop_last()));
        lemma_trim_trailing_valid_utf8(s.drop_last(), b);
    }
}

} // verus!
