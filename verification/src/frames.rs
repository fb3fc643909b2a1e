//! The streaming wire frames: the websocket URL, the subscribe frame and the
//! heartbeat ping, each specified byte for byte.
use vstd::prelude::*;

verus! {

use vstd::utf8::{encode_utf8, valid_utf8, valid_utf8_concat, encode_utf8_valid_utf8};
use vstd::string::StringSliceAdditionalSpecFns;
use crate::encode::{
    dec_i64_of,
    i64_to_dec,
    is_ascii_bytes,
    lemma_ascii_bytes_valid_utf8,
    string_from_utf8,
};
use crate::json::{json_escape, json_escape_bytes, lemma_json_escape_valid_utf8};
use crate::params::{append_str, append_bytes};

/// The streaming endpoint: `wss://{domain}/v4/ws/usdt`.
pub open spec fn ws_url_of(domain: Seq<u8>) -> Seq<u8> {
    "wss://".spec_bytes() + domain + "/v4/ws/usdt".spec_bytes()
}

/// The subscribe frame for the candlestick channel, as one JSON text:
/// channel, event, the `[interval, symbol]` payload, and the current time.
pub open spec fn subscribe_frame_of(timestamp: int, interval: Seq<u8>, symbol: Seq<u8>) -> Seq<
    u8,
> {
    "{\"channel\":\"futures.candlesticks\",\"event\":\"subscribe\",\"payload\":[\"".spec_bytes()
        + json_escape(interval) + "\",\"".spec_bytes() + json_escape(symbol)
        + "\"],\"time\":".spec_bytes() + dec_i64_of(timestamp) + "}".spec_bytes()
}

/// The heartbeat frame: a ping tagged with the current time.
pub open spec fn ping_frame_of(timestamp: int) -> Seq<u8> {
    "{\"op\":\"ping\",\"ping\":".spec_bytes() + dec_i64_of(timestamp) + "}".spec_bytes()
}

/// Builds the websocket URL for a domain.
pub fn websocket_url(domain: &str) -> (r: String)
    ensures
        encode_utf8(r@) == ws_url_of(domain.spec_bytes()),
{
    let mut v: Vec<u8> = Vec::new();
    append_str(&mut v, "wss://");
    append_str(&mut v, domain);
    append_str(&mut v, "/v4/ws/usdt");
    proof {
        encode_utf8_valid_utf8("wss://"@);
        encode_utf8_valid_utf8(domain@);
        encode_utf8_valid_utf8("/v4/ws/usdt"@);
        valid_utf8_concat("wss://".spec_bytes(), domain.spec_bytes());
        valid_utf8_concat(
            "wss://".spec_bytes() + domain.spec_bytes(),
            "/v4/ws/usdt".spec_bytes(),
        );
        assert(v@ =~= ("wss://".spec_bytes() + domain.spec_bytes()) + "/v4/ws/usdt".spec_bytes());
        assert(v@ =~= ws_url_of(domain.spec_bytes()));
    }
    string_from_utf8(v)
}

/// Builds the subscribe frame for one interval and symbol at a timestamp.
pub fn subscribe_frame(timestamp: i64, interval: &str, symbol: &str) -> (r: String)
    ensures
        encode_utf8(r@) == subscribe_frame_of(
            timestamp as int,
            interval.spec_bytes(),
            symbol.spec_bytes(),
        ),
{
    let mut v: Vec<u8> = Vec::new();
    append_str(
        &mut v,
        "{\"channel\":\"futures.candlesticks\",\"event\":\"subscribe\",\"payload\":[\"",
    );
    proof {
        encode_utf8_valid_utf8(
            "{\"channel\":\"futures.candlesticks\",\"event\":\"subscribe\",\"payload\":[\""@,
        );
        assert(valid_utf8(v@));
    }
    let ghost u0 = v@;
    let ei = json_escape_bytes(interval.as_bytes());
    append_bytes(&mut v, ei.as_slice());
    proof {
        encode_utf8_valid_utf8(interval@);
        lemma_json_escape_valid_utf8(interval.spec_bytes());
        valid_utf8_concat(u0, ei@);
    }
    let ghost u1 = v@;
    append_str(&mut v, "\",\"");
    proof {
        encode_utf8_valid_utf8("\",\""@);
        valid_utf8_concat(u1, "\",\"".spec_bytes());
    }
    let ghost u2 = v@;
    let es = json_escape_bytes(symbol.as_bytes());
    append_bytes(&mut v, es.as_slice());
    proof {
        encode_utf8_valid_utf8(symbol@);
        lemma_json_escape_valid_utf8(symbol.spec_bytes());
        valid_utf8_concat(u2, es@);
    }
    let ghost u3 = v@;
    append_str(&mut v, "\"],\"time\":");
    proof {
        encode_utf8_valid_utf8("\"],\"time\":"@);
        valid_utf8_concat(u3, "\"],\"time\":".spec_bytes());
    }
    let ghost u4 = v@;
    let ts = i64_to_dec(timestamp);
    append_bytes(&mut v, ts.as_slice());
    proof {
        lemma_ascii_bytes_valid_utf8(ts@);
        valid_utf8_concat(u4, ts@);
    }
    let ghost u5 = v@;
    append_str(&mut v, "}");
    proof {
        encode_utf8_valid_utf8("}"@);
        valid_utf8_concat(u5, "}".spec_bytes());
        assert(v@ =~= subscribe_frame_of(
            timestamp as int,
            interval.spec_bytes(),
            symbol.spec_bytes(),
        ));
    }
    string_from_utf8(v)
}

/// Builds the heartbeat ping frame for a timestamp.
pub fn ping_frame(timestamp: i64) -> (r: String)
    ensures
        encode_utf8(r@) == ping_frame_of(timestamp as int),
{
    let mut v: Vec<u8> = Vec::new();
    append_str(&mut v, "{\"op\":\"ping\",\"ping\":");
    proof {
        encode_utf8_valid_utf8("{\"op\":\"ping\",\"ping\":"@);
        assert(valid_utf8(v@));
    }
    let ghost u0 = v@;
    let ts = i64_to_dec(timestamp);
    append_bytes(&mut v, ts.as_slice());
    proof {
        lemma_ascii_bytes_valid_utf8(ts@);
        valid_utf8_concat(u0, ts@);
    }
    let ghost u1 = v@;
    append_str(&mut v, "}");
    proof {
        encode_utf8_valid_utf8("}"@);
        valid_utf8_concat(u1, "}".spec_bytes());
        assert(v@ =~= ping_frame_of(timestamp as int));
    }
    string_from_utf8(v)
}

} // verus!
