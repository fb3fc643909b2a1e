//! Signed REST requests: canonical path, full URL, headers, and the exact
//! relation between what is signed and what is sent.
use vstd::prelude::*;

verus! {

use vstd::utf8::{encode_utf8, valid_utf8, valid_utf8_concat};
use vstd::string::{StringSliceAdditionalSpecFns, StrSliceExecFns, StringExecFns};
use crate::encode::{
    dec_i64_of,
    hex_of,
    i64_to_dec,
    is_ascii_bytes,
    lemma_ascii_bytes_valid_utf8,
    lemma_trim_leading_valid_utf8,
    lemma_trim_trailing_valid_utf8,
    string_from_utf8,
    trim_leading,
    trim_leading_bytes,
    trim_trailing,
    trim_trailing_bytes,
};
use crate::params::{QueryParams, BodyParams, query_of, enc_query_of, json_of_body, append_bytes};
use crate::sign::{sha512_of, sign_payload, signature_of, sha512_hex_bytes, build_sign_string, sign_bytes};
use crate::client::GateClient;

/// The bytes of the GET method name.
pub open spec fn method_get() -> Seq<u8> {
    seq![0x47u8, 0x45u8, 0x54u8]
}

/// The bytes of the POST method name.
pub open spec fn method_post() -> Seq<u8> {
    seq![0x50u8, 0x4fu8, 0x53u8, 0x54u8]
}

/// The canonical request path of the signature string: a slash, the prefix
/// without its leading slashes, a slash, the path without its leading
/// slashes.
pub open spec fn canonical_path_of(prefix: Seq<u8>, path: Seq<u8>) -> Seq<u8> {
    seq![0x2fu8] + trim_leading(prefix, 0x2f) + seq![0x2fu8] + trim_leading(path, 0x2f)
}

/// The transport URL without a query: domain without trailing slashes, then
/// prefix and path as in the canonical path.
pub open spec fn base_url_of(domain: Seq<u8>, prefix: Seq<u8>, path: Seq<u8>) -> Seq<u8> {
    trim_trailing(domain, 0x2f) + canonical_path_of(prefix, path)
}

/// The transport URL: the base URL, and the percent-encoded query when there
/// are parameters.
pub open spec fn full_url_of(
    domain: Seq<u8>,
    prefix: Seq<u8>,
    path: Seq<u8>,
    q: Seq<(Seq<u8>, Seq<u8>)>,
) -> Seq<u8> {
    if q.len() == 0 {
        base_url_of(domain, prefix, path)
    } else {
        base_url_of(domain, prefix, path) + seq![0x3fu8] + enc_query_of(q)
    }
}

/// The signature string of a GET request: unescaped query, hash of the empty
/// body.
pub open spec fn get_sign_input(
    prefix: Seq<u8>,
    path: Seq<u8>,
    q: Seq<(Seq<u8>, Seq<u8>)>,
    timestamp: int,
) -> Seq<u8> {
    sign_payload(
        method_get(),
        canonical_path_of(prefix, path),
        query_of(q),
        hex_of(sha512_of(Seq::empty())),
        dec_i64_of(timestamp),
    )
}

/// The signature string of a POST request: empty query, hash of exactly the
/// body bytes.
pub open spec fn post_sign_input(
    prefix: Seq<u8>,
    path: Seq<u8>,
    body: Seq<u8>,
    timestamp: int,
) -> Seq<u8> {
    sign_payload(
        method_post(),
        canonical_path_of(prefix, path),
        Seq::empty(),
        hex_of(sha512_of(body)),
        dec_i64_of(timestamp),
    )
}

/// A fully prepared signed request: everything the transport needs, with the
/// body bytes exactly as they were hashed.
pub struct SignedRequest {
    pub method: String,
    pub url: String,
    pub sign: String,
    pub timestamp: String,
    pub key: String,
    pub body: Vec<u8>,
}

impl SignedRequest {
    /// The five request headers: the two content headers, the signature, its
    /// timestamp, and the public API key.
    pub fn header_pairs(&self) -> (r: Vec<(String, String)>)
        ensures
            r@.len() == 5,
            r@[0].0@ == "Accept"@ && r@[0].1@ == "application/json"@,
            r@[1].0@ == "Content-Type"@ && r@[1].1@ == "application/json"@,
            r@[2].0@ == "SIGN"@ && r@[2].1@ == self.sign@,
            r@[3].0@ == "Timestamp"@ && r@[3].1@ == self.timestamp@,
            r@[4].0@ == "KEY"@ && r@[4].1@ == self.key@,
    {
        let mut r: Vec<(String, String)> = Vec::new();
        r.push((String::from_str("Accept"), String::from_str("application/json")));
        r.push((String::from_str("Content-Type"), String::from_str("application/json")));
        r.push((String::from_str("SIGN"), self.sign.clone()));
        r.push((String::from_str("Timestamp"), self.timestamp.clone()));
        r.push((String::from_str("KEY"), self.key.clone()));
        r
    }
}

impl GateClient {
    /// Prepares a signed GET request: the signature covers the unescaped
    /// key-ordered query, while the URL carries the percent-encoded one.
    pub fn prepare_get(&self, request_path: &str, parameters: &QueryParams, timestamp: i64) -> (r:
        SignedRequest)
        requires
            parameters.wf(),
        ensures
            encode_utf8(r.method@) == method_get(),
            encode_utf8(r.url@) == full_url_of(
                encode_utf8(self.domain@),
                encode_utf8(self.prefix@),
                request_path.spec_bytes(),
                parameters@,
            ),
            encode_utf8(r.sign@) == signature_of(
                encode_utf8(self.secret_key@),
                get_sign_input(
                    encode_utf8(self.prefix@),
                    request_path.spec_bytes(),
                    parameters@,
                    timestamp as int,
                ),
            ),
            encode_utf8(r.timestamp@) == dec_i64_of(timestamp as int),
            r.key@ == self.api_key@,
            r.body@ == Seq::<u8>::empty(),
    {
        let prefix_t = trim_leading_bytes(self.prefix.as_str().as_bytes(), 0x2f);
        let path_t = trim_leading_bytes(request_path.as_bytes(), 0x2f);
        let domain_t = trim_trailing_bytes(self.domain.as_str().as_bytes(), 0x2f);

        let mut cpath: Vec<u8> = Vec::new();
        cpath.push(0x2f);
        append_bytes(&mut cpath, prefix_t.as_slice());
        cpath.push(0x2f);
        append_bytes(&mut cpath, path_t.as_slice());
        proof {
            assert(cpath@ =~= canonical_path_of(
                encode_utf8(self.prefix@),
                request_path.spec_bytes(),
            ));
        }

        let qs = crate::params::query_string(parameters);
        let empty_body: Vec<u8> = Vec::new();
        let body_hash = sha512_hex_bytes(empty_body.as_slice());
        let ts_b = i64_to_dec(timestamp);
        let mut method_b: Vec<u8> = Vec::new();
        method_b.push(0x47);
        method_b.push(0x45);
        method_b.push(0x54);
        proof {
            assert(method_b@ =~= method_get());
        }
        let ss = build_sign_string(
            method_b.as_slice(),
            cpath.as_slice(),
            qs.as_slice(),
            body_hash.as_slice(),
            ts_b.as_slice(),
        );
        let sig = sign_bytes(self.secret_key.as_str().as_bytes(), ss.as_slice());

        let mut url = domain_t;
        proof {
            vstd::utf8::encode_utf8_valid_utf8(self.domain@);
            vstd::utf8::encode_utf8_valid_utf8(self.prefix@);
            vstd::utf8::encode_utf8_valid_utf8(request_path@);
            lemma_trim_trailing_valid_utf8(encode_utf8(self.domain@), 0x2f);
            lemma_trim_leading_valid_utf8(encode_utf8(self.prefix@), 0x2f);
            lemma_trim_leading_valid_utf8(request_path.spec_bytes(), 0x2f);
            assert(valid_utf8(url@));
        }
        let ghost u0 = url@;
        url.push(0x2f);
        proof {
            lemma_ascii_bytes_valid_utf8(seq![0x2fu8]);
            valid_utf8_concat(u0, seq![0x2fu8]);
            assert(url@ =~= u0 + seq![0x2fu8]);
        }
        let ghost u1 = url@;
        append_bytes(&mut url, prefix_t.as_slice());
        proof {
            valid_utf8_concat(u1, prefix_t@);
        }
        let ghost u2 = url@;
        url.push(0x2f);
        proof {
            valid_utf8_concat(u2, seq![0x2fu8]);
            assert(url@ =~= u2 + seq![0x2fu8]);
        }
        let ghost u3 = url@;
        append_bytes(&mut url, path_t.as_slice());
        proof {
            valid_utf8_concat(u3, path_t@);
        }
        if !parameters.is_empty() {
            let ghost u4 = url@;
            url.push(0x3f);
            proof {
                lemma_ascii_bytes_valid_utf8(seq![0x3fu8]);
                valid_utf8_concat(u4, seq![0x3fu8]);
                assert(url@ =~= u4 + seq![0x3fu8]);
            }
            let ghost u5 = url@;
            let eq = crate::params::encoded_query_string(parameters);
            append_bytes(&mut url, eq.as_slice());
            proof {
                lemma_ascii_bytes_valid_utf8(eq@);
                valid_utf8_concat(u5, eq@);
            }
        }
        proof {
            assert(url@ =~= full_url_of(
                encode_utf8(self.domain@),
                encode_utf8(self.prefix@),
                request_path.spec_bytes(),
                parameters@,
            ));
            lemma_ascii_bytes_valid_utf8(sig@);
            lemma_ascii_bytes_valid_utf8(ts_b@);
            assert(empty_body@ =~= Seq::<u8>::empty());
        }
        let r = SignedRequest {
            method: String::from_str("GET"),
            url: string_from_utf8(url),
            sign: string_from_utf8(sig),
            timestamp: string_from_utf8(ts_b),
            key: self.api_key.clone(),
            body: Vec::new(),
        };
        proof {
            vstd::string::is_ascii_spec_bytes("GET");
            reveal_strlit("GET");
            assert(vstd::utf8::is_ascii_chars("GET"@));
            assert(encode_utf8("GET"@) =~= method_get());
            assert(r.body@ =~= Seq::<u8>::empty());
        }
        r
    }

    /// Prepares a signed POST request. The bytes hashed for the signature
    /// are exactly the bytes placed in the body: the contract states the
    /// signature input over `r.body` itself.
    pub fn prepare_post(&self, request_path: &str, body_params: &BodyParams, timestamp: i64) -> (r:
        SignedRequest)
        requires
            body_params.wf(),
        ensures
            encode_utf8(r.method@) == method_post(),
            encode_utf8(r.url@) == base_url_of(
                encode_utf8(self.domain@),
                encode_utf8(self.prefix@),
                request_path.spec_bytes(),
            ),
            r.body@ == json_of_body(body_params@),
            encode_utf8(r.sign@) == signature_of(
                encode_utf8(self.secret_key@),
                post_sign_input(
                    encode_utf8(self.prefix@),
                    request_path.spec_bytes(),
                    r.body@,
                    timestamp as int,
                ),
            ),
            encode_utf8(r.timestamp@) == dec_i64_of(timestamp as int),
            r.key@ == self.api_key@,
    {
        let prefix_t = trim_leading_bytes(self.prefix.as_str().as_bytes(), 0x2f);
        let path_t = trim_leading_bytes(request_path.as_bytes(), 0x2f);
        let domain_t = trim_trailing_bytes(self.domain.as_str().as_bytes(), 0x2f);

        let mut cpath: Vec<u8> = Vec::new();
        cpath.push(0x2f);
        append_bytes(&mut cpath, prefix_t.as_slice());
        cpath.push(0x2f);
        append_bytes(&mut cpath, path_t.as_slice());
        proof {
            assert(cpath@ =~= canonical_path_of(
                encode_utf8(self.prefix@),
                request_path.spec_bytes(),
            ));
        }

        let body = crate::params::body_bytes(body_params);
        let body_hash = sha512_hex_bytes(body.as_slice());
        let ts_b = i64_to_dec(timestamp);
        let mut method_b: Vec<u8> = Vec::new();
        method_b.push(0x50);
        method_b.push(0x4f);
        method_b.push(0x53);
        method_b.push(0x54);
        proof {
            assert(method_b@ =~= method_post());
        }
        let empty_q: Vec<u8> = Vec::new();
        let ss = build_sign_string(
            method_b.as_slice(),
            cpath.as_slice(),
            empty_q.as_slice(),
            body_hash.as_slice(),
            ts_b.as_slice(),
        );
        let sig = sign_bytes(self.secret_key.as_str().as_bytes(), ss.as_slice());

        let mut url = domain_t;
        proof {
            vstd::utf8::encode_utf8_valid_utf8(self.domain@);
            vstd::utf8::encode_utf8_valid_utf8(self.prefix@);
            vstd::utf8::encode_utf8_valid_utf8(request_path@);
            lemma_trim_trailing_valid_utf8(encode_utf8(self.domain@), 0x2f);
            lemma_trim_leading_valid_utf8(encode_utf8(self.prefix@), 0x2f);
            lemma_trim_leading_valid_utf8(request_path.spec_bytes(), 0x2f);
            assert(valid_utf8(url@));
        }
        let ghost u0 = url@;
        url.push(0x2f);
        proof {
            lemma_ascii_bytes_valid_utf8(seq![0x2fu8]);
            valid_utf8_concat(u0, seq![0x2fu8]);
            assert(url@ =~= u0 + seq![0x2fu8]);
        }
        let ghost u1 = url@;
        append_bytes(&mut url, prefix_t.as_slice());
        proof {
            valid_utf8_concat(u1, prefix_t@);
        }
        let ghost u2 = url@;
        url.push(0x2f);
        proof {
            valid_utf8_concat(u2, seq![0x2fu8]);
            assert(url@ =~= u2 + seq![0x2fu8]);
        }
        let ghost u3 = url@;
        append_bytes(&mut url, path_t.as_slice());
        proof {
            valid_utf8_concat(u3, path_t@);
            assert(url@ =~= base_url_of(
                encode_utf8(self.domain@),
                encode_utf8(self.prefix@),
                request_path.spec_bytes(),
            ));
            lemma_ascii_bytes_valid_utf8(sig@);
            lemma_ascii_bytes_valid_utf8(ts_b@);
            assert(empty_q@ =~= Seq::<u8>::empty());
        }
        let r = SignedRequest {
            method: String::from_str("POST"),
            url: string_from_utf8(url),
            sign: string_from_utf8(sig),
            timestamp: string_from_utf8(ts_b),
            key: self.api_key.clone(),
            body,
        };
        proof {
            vstd::string::is_ascii_spec_bytes("POST");
            reveal_strlit("POST");
            assert(vstd::utf8::is_ascii_chars("POST"@));
            assert(encode_utf8("POST"@) =~= method_post());
        }
        r
    }
}

} // verus!
