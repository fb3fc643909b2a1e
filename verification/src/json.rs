//! A small JSON value type and its canonical serialization to UTF-8 bytes.
//!
//! The request body of a signed POST is serialized exactly once; the same
//! bytes are hashed for the signature and sent on the wire, so the
//! serialization is specified byte for byte.
use vstd::prelude::*;

verus! {

use vstd::utf8::{
    valid_utf8,
    valid_first_scalar,
    length_of_first_scalar,
    pop_first_scalar,
    valid_utf8_concat,
};
use crate::encode::{
    dec_i64_of,
    hex_digit,
    i64_to_dec,
    is_ascii_bytes,
    lemma_ascii_bytes_valid_utf8,
};

/// A JSON scalar value: the shapes the request bodies of this client use.
#[derive(Debug, Clone, PartialEq, Eq)]
pub enum JsonVal {
    Bool(bool),
    Int(i64),
    Str(String),
}

/// The JSON escape of one byte of a UTF-8 string: quote and backslash get a
/// backslash; newline, carriage return and tab their short forms; the other
/// control bytes a `\u00..` form; every other byte stands for itself.
pub open spec fn esc_byte(b: u8) -> Seq<u8> {
    if b == 0x22 {
        seq![0x5cu8, 0x22u8]
    } else if b == 0x5c {
        seq![0x5cu8, 0x5cu8]
    } else if b == 0x0a {
        seq![0x5cu8, 0x6eu8]
    } else if b == 0x0d {
        seq![0x5cu8, 0x72u8]
    } else if b == 0x09 {
        seq![0x5cu8, 0x74u8]
    } else if b < 0x20 {
        seq![0x5cu8, 0x75u8, 0x30u8, 0x30u8, hex_digit(b as int / 16), hex_digit(b as int % 16)]
    } else {
        seq![b]
    }
}

/// JSON escaping of a byte sequence, byte by byte.
pub open spec fn json_escape(s: Seq<u8>) -> Seq<u8>
    decreases s.len(),
{
    if s.len() == 0 {
        Seq::empty()
    } else {
        esc_byte(s[0]) + json_escape(s.drop_first())
    }
}

pub proof fn lemma_json_escape_push(s: Seq<u8>, b: u8)
    ensures
        json_escape(s.push(b)) == json_escape(s) + esc_byte(b),
    decreases s.len(),
{
    if s.len() == 0 {
        assert(s.push(b)[0] == b);
        assert(s.push(b).drop_first() =~= Seq::<u8>::empty());
        assert(json_escape(s.push(b).drop_first()) =~= Seq::<u8>::empty());
        assert(json_escape(s.push(b)) =~= esc_byte(b) + json_escape(s.push(b).drop_first()));
        assert(json_escape(s) =~= Seq::<u8>::empty());
        assert(json_escape(s.push(b)) =~= json_escape(s) + esc_byte(b));
    } else {
        assert(s.push(b)[0] == s[0]);
        assert(s.push(b).drop_first() =~= s.drop_first().push(b));
        lemma_json_escape_push(s.drop_first(), b);
        assert(json_escape(s.push(b)) =~= json_escape(s) + esc_byte(b));
    }
}

pub proof fn lemma_json_escape_concat(a: Seq<u8>, b: Seq<u8>)
    ensures
        json_escape(a + b) == json_escape(a) + json_escape(b),
    decreases a.len(),
{
    if a.len() == 0 {
        assert(a + b =~= b);
        assert(json_escape(a) =~= Seq::<u8>::empty());
        assert(json_escape(a + b) =~= json_escape(a) + json_escape(b));
    } else {
        assert((a + b)[0] == a[0]);
        assert((a + b).drop_first() =~= a.drop_first() + b);
        lemma_json_escape_concat(a.drop_first(), b);
        assert(json_escape(a + b) =~= json_escape(a) + json_escape(b));
    }
}

/// Escaping bytes that no escape touches gives them back unchanged.
proof fn lemma_json_escape_passthrough(s: Seq<u8>)
    requires
        forall|i: int| 0 <= i < s.len() ==> s[i] >= 0x20 && s[i] != 0x22 && s[i] != 0x5c,
    ensures
        json_escape(s) == s,
    decreases s.len(),
{
    if s.len() == 0 {
        assert(json_escape(s) =~= s);
    } else {
        lemma_json_escape_passthrough(s.drop_first());
        assert(esc_byte(s[0]) == seq![s[0]]);
        assert(json_escape(s) =~= s);
    }
}

/// The escape of an ASCII byte is a sequence of ASCII bytes.
pub proof fn lemma_esc_byte_ascii(b: u8)
    requires
        b < 0x80,
    ensures
        is_ascii_bytes(esc_byte(b)),
{
}

/// Escaping a valid UTF-8 byte sequence yields a valid UTF-8 byte sequence:
/// escapes are ASCII, and the bytes of multi-byte characters pass through
/// untouched.
pub proof fn lemma_json_escape_valid_utf8(s: Seq<u8>)
    requires
        valid_utf8(s),
    ensures
        valid_utf8(json_escape(s)),
    decreases s.len(),
{
    if s.len() == 0 {
    } else {
        let k = length_of_first_scalar(s);
        assert(valid_first_scalar(s));
        assert(1 <= k <= 4 && k <= s.len());
        let head = s.subrange(0, k);
        let tail = s.skip(k);
        assert(pop_first_scalar(s) =~= tail);
        assert(valid_utf8(tail));
        lemma_json_escape_valid_utf8(tail);
        assert(s =~= head + tail);
        lemma_json_escape_concat(head, tail);
        if s[0] < 0x80 {
            assert(k == 1);
            assert(head =~= seq![s[0]]);
            assert(head[0] == s[0]);
            assert(head.drop_first() =~= Seq::<u8>::empty());
            assert(json_escape(head.drop_first()) =~= Seq::<u8>::empty());
            assert(json_escape(head) =~= esc_byte(head[0]) + json_escape(head.drop_first()));
            assert(json_escape(head) =~= esc_byte(s[0]));
            lemma_esc_byte_ascii(s[0]);
            lemma_ascii_bytes_valid_utf8(json_escape(head));
        } else {
            assert(forall|i: int|
                0 <= i < head.len() ==> head[i] >= 0x80 && head[i] >= 0x20 && head[i] != 0x22
                    && head[i] != 0x5c);
            lemma_json_escape_passthrough(head);
            assert(valid_first_scalar(head));
            assert(length_of_first_scalar(head) == k);
            assert(pop_first_scalar(head) =~= Seq::<u8>::empty());
            assert(valid_utf8(pop_first_scalar(head)));
            assert(valid_utf8(head));
        }
        valid_utf8_concat(json_escape(head), json_escape(tail));
        assert(json_escape(s) == json_escape(head) + json_escape(tail));
    }
}

/// Escapes the bytes of a UTF-8 string for inclusion in a JSON string literal.
pub fn json_escape_bytes(v: &[u8]) -> (r: Vec<u8>)
    ensures
        r@ == json_escape(v@),
{
    let mut r: Vec<u8> = Vec::new();
    let mut i: usize = 0;
    proof {
        assert(v@.take(0) =~= Seq::<u8>::empty());
        assert(json_escape(v@.take(0)) =~= Seq::<u8>::empty());
    }
    while i < v.len()
        invariant
            i <= v.len(),
            r@ == json_escape(v@.take(i as int)),
        decreases v.len() - i,
    {
        let b = v[i];
        if b == 0x22 {
            r.push(0x5c);
            r.push(0x22);
        } else if b == 0x5c {
            r.push(0x5c);
            r.push(0x5c);
        } else if b == 0x0a {
            r.push(0x5c);
            r.push(0x6e);
        } else if b == 0x0d {
            r.push(0x5c);
            r.push(0x72);
        } else if b == 0x09 {
            r.push(0x5c);
            r.push(0x74);
        } else if b < 0x20 {
            r.push(0x5c);
            r.push(0x75);
            r.push(0x30);
            r.push(0x30);
            let hi = b / 16;
            let lo = b % 16;
            r.push(if hi < 10 { 0x30 + hi } else { 0x57 + hi });
            r.push(if lo < 10 { 0x30 + lo } else { 0x57 + lo });
        } else {
            r.push(b);
        }
        proof {
            lemma_json_escape_push(v@.take(i as int), b);
            assert(v@.take(i + 1) =~= v@.take(i as int).push(b));
            assert(r@ =~= json_escape(v@.take(i + 1)));
        }
        i = i + 1;
    }
    proof {
        assert(v@.take(v@.len() as int) =~= v@);
    }
    r
}

/// The serialization of a JSON boolean.
pub open spec fn json_bool_of(b: bool) -> Seq<u8> {
    if b {
        seq![0x74u8, 0x72u8, 0x75u8, 0x65u8]
    } else {
        seq![0x66u8, 0x61u8, 0x6cu8, 0x73u8, 0x65u8]
    }
}

/// The serialization of a JSON string literal built from UTF-8 bytes.
pub open spec fn json_str_of(b: Seq<u8>) -> Seq<u8> {
    seq![0x22u8] + json_escape(b) + seq![0x22u8]
}

/// The serialization of one JSON value.
pub open spec fn json_of_val(v: JsonVal) -> Seq<u8> {
    match v {
        JsonVal::Bool(b) => json_bool_of(b),
        JsonVal::Int(i) => dec_i64_of(i as int),
        JsonVal::Str(s) => json_str_of(vstd::utf8::encode_utf8(s@)),
    }
}

/// The serialization of one JSON value is valid UTF-8.
pub proof fn lemma_json_of_val_valid_utf8(v: JsonVal)
    ensures
        valid_utf8(json_of_val(v)),
{
    match v {
        JsonVal::Bool(_) => {
            lemma_ascii_bytes_valid_utf8(json_of_val(v));
        },
        JsonVal::Int(i) => {
            if i >= 0 {
                crate::encode::lemma_dec_of_ascii(i as int);
            } else {
                crate::encode::lemma_dec_of_ascii(-(i as int));
            }
            lemma_ascii_bytes_valid_utf8(json_of_val(v));
        },
        JsonVal::Str(s) => {
            let inner = vstd::utf8::encode_utf8(s@);
            vstd::utf8::encode_utf8_valid_utf8(s@);
            lemma_json_escape_valid_utf8(inner);
            lemma_ascii_bytes_valid_utf8(seq![0x22u8]);
            valid_utf8_concat(seq![0x22u8], json_escape(inner));
            valid_utf8_concat(seq![0x22u8] + json_escape(inner), seq![0x22u8]);
            assert(json_of_val(v) =~= (seq![0x22u8] + json_escape(inner)) + seq![0x22u8]);
        },
    }
}

/// Serializes one JSON value.
pub fn json_val_bytes(v: &JsonVal) -> (r: Vec<u8>)
    ensures
        r@ == json_of_val(*v),
{
    match v {
        JsonVal::Bool(b) => {
            let mut r: Vec<u8> = Vec::new();
            if *b {
                r.push(0x74);
                r.push(0x72);
                r.push(0x75);
                r.push(0x65);
                proof {
                    assert(r@ =~= json_of_val(*v));
                }
            } else {
                r.push(0x66);
                r.push(0x61);
                r.push(0x6c);
                r.push(0x73);
                r.push(0x65);
                proof {
                    assert(r@ =~= json_of_val(*v));
                }
            }
            r
        },
        JsonVal::Int(i) => i64_to_dec(*i),
        JsonVal::Str(s) => {
            let mut r: Vec<u8> = Vec::new();
            r.push(0x22);
            let inner = json_escape_bytes(s.as_str().as_bytes());
            let mut j: usize = 0;
            while j < inner.len()
                invariant
                    j <= inner.len(),
                    r@ == seq![0x22u8] + inner@.take(j as int),
                decreases inner.len() - j,
            {
                let x = inner[j];
                r.push(x);
                proof {
                    assert(inner@.take(j + 1) =~= inner@.take(j as int).push(x));
                    assert(r@ =~= seq![0x22u8] + inner@.take(j + 1));
                }
                j = j + 1;
            }
            r.push(0x22);
            proof {
                assert(inner@.take(inner@.len() as int) =~= inner@);
                assert(r@ =~= json_of_val(*v));
            }
            r
        },
    }
}

} // verus!
