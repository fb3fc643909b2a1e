//! The request signature: SHA-512 body hash, canonical signature string, and
//! the HMAC-SHA512 credential, hex encoded.
use vstd::prelude::*;
use hmac::{KeyInit, Mac};
use sha2::Digest;

verus! {

use vstd::utf8::encode_utf8;
use vstd::string::{StringSliceAdditionalSpecFns, StrSliceExecFns};
use crate::encode::{
    hex_of,
    hex_encode,
    is_ascii_bytes,
    lemma_hex_of_len,
    lemma_ascii_bytes_valid_utf8,
    string_from_utf8,
};
use crate::params::append_bytes;
use crate::client::GateClient;

/// The SHA-512 digest of a byte sequence.
pub uninterp spec fn sha512_of(input: Seq<u8>) -> Seq<u8>;

/// The HMAC-SHA512 code of a message under a key.
pub uninterp spec fn hmac_sha512_of(key: Seq<u8>, msg: Seq<u8>) -> Seq<u8>;

/// Relies on `sha2::Sha512` through `Digest::digest`: a 64-byte digest that
/// is a function of the input bytes alone.
#[verifier::external_body]
fn sha512(input: &[u8]) -> (r: Vec<u8>)
    ensures
        r@ == sha512_of(input@),
        r@.len() == 64,
{
    sha2::Sha512::digest(input).to_vec()
}

/// Relies on `hmac::Hmac<sha2::Sha512>` through `new_from_slice`, `update`
/// and `finalize`: a 64-byte code that is a function of the key and message
/// bytes alone. HMAC accepts a key of any length, so `new_from_slice` cannot
/// fail here.
#[verifier::external_body]
fn hmac_sha512(key: &[u8], msg: &[u8]) -> (r: Vec<u8>)
    ensures
        r@ == hmac_sha512_of(key@, msg@),
        r@.len() == 64,
{
    let mut mac = <hmac::Hmac<sha2::Sha512> as KeyInit>::new_from_slice(key).expect(
        "HMAC accepts keys of any length",
    );
    mac.update(msg);
    mac.finalize().into_bytes().to_vec()
}

/// The canonical signature string: method, path, query, body hash and
/// timestamp, joined by newlines. Its bytes are what the secret key signs.
pub open spec fn sign_payload(
    method: Seq<u8>,
    path: Seq<u8>,
    query: Seq<u8>,
    body_hash_hex: Seq<u8>,
    timestamp: Seq<u8>,
) -> Seq<u8> {
    method + seq![0x0au8] + path + seq![0x0au8] + query + seq![0x0au8] + body_hash_hex
        + seq![0x0au8] + timestamp
}

/// The request credential: the lowercase hex encoding of the HMAC-SHA512 of
/// the signature string under the secret key.
pub open spec fn signature_of(secret: Seq<u8>, sign_string: Seq<u8>) -> Seq<u8> {
    hex_of(hmac_sha512_of(secret, sign_string))
}

/// With the secret key and the signature string fixed, the produced
/// signature is one value: two signings of equal inputs agree.
pub proof fn lemma_signature_deterministic(
    secret_a: Seq<u8>,
    msg_a: Seq<u8>,
    secret_b: Seq<u8>,
    msg_b: Seq<u8>,
)
    requires
        secret_a == secret_b,
        msg_a == msg_b,
    ensures
        signature_of(secret_a, msg_a) == signature_of(secret_b, msg_b),
{
}

/// Assembles the canonical signature string from its five parts.
pub fn build_sign_string(
    method: &[u8],
    path: &[u8],
    query: &[u8],
    body_hash_hex: &[u8],
    timestamp: &[u8],
) -> (r: Vec<u8>)
    ensures
        r@ == sign_payload(method@, path@, query@, body_hash_hex@, timestamp@),
{
    let mut r: Vec<u8> = Vec::new();
    append_bytes(&mut r, method);
    r.push(0x0a);
    append_bytes(&mut r, path);
    r.push(0x0a);
    append_bytes(&mut r, query);
    r.push(0x0a);
    append_bytes(&mut r, body_hash_hex);
    r.push(0x0a);
    append_bytes(&mut r, timestamp);
    proof {
        assert(r@ =~= sign_payload(method@, path@, query@, body_hash_hex@, timestamp@));
    }
    r
}

/// The signature bytes for a signature string under a secret key:
/// 128 lowercase hex digits.
pub fn sign_bytes(secret: &[u8], sign_string: &[u8]) -> (r: Vec<u8>)
    ensures
        r@ == signature_of(secret@, sign_string@),
        is_ascii_bytes(r@),
        r@.len() == 128,
{
    let mac = hmac_sha512(secret, sign_string);
    proof {
        lemma_hex_of_len(mac@);
    }
    hex_encode(mac.as_slice())
}

/// The hex encoding of the SHA-512 digest of a byte slice: the payload hash
/// line of the signature string.
pub fn sha512_hex_bytes(input: &[u8]) -> (r: Vec<u8>)
    ensures
        r@ == hex_of(sha512_of(input@)),
        is_ascii_bytes(r@),
        r@.len() == 128,
{
    let d = sha512(input);
    proof {
        lemma_hex_of_len(d@);
    }
    hex_encode(d.as_slice())
}

impl GateClient {
    /// The lowercase hex SHA-512 digest of a string's UTF-8 bytes.
    pub fn sha512_hex(input: &str) -> (r: String)
        ensures
            encode_utf8(r@) == hex_of(sha512_of(input.spec_bytes())),
    {
        let b = sha512_hex_bytes(input.as_bytes());
        proof {
            lemma_ascii_bytes_valid_utf8(b@);
        }
        string_from_utf8(b)
    }

    /// The lowercase hex HMAC-SHA512 of a string's UTF-8 bytes under this
    /// client's secret key.
    pub fn hmac_sha512_hex(&self, input: &str) -> (r: String)
        ensures
            encode_utf8(r@) == signature_of(
                encode_utf8(self.secret_key@),
                input.spec_bytes(),
            ),
    {
        let b = sign_bytes(self.secret_key.as_str().as_bytes(), input.as_bytes());
        proof {
            lemma_ascii_bytes_valid_utf8(b@);
        }
        string_from_utf8(b)
    }
}

} // verus!
