//! Encoding, parameter, signing and request-building behaviour on concrete
//! values, including the golden regression vectors.
use gate_client::client::GateClient;
use gate_client::encode::{
    bytes_eq, bytes_lt, hex_encode, i64_to_dec, pct_encode, trim_leading_bytes,
    trim_trailing_bytes, u64_to_dec,
};
use gate_client::endpoints::{
    futures_account_path, futures_contract_path, futures_order_detail_path, futures_order_params,
    futures_orders_path, futures_positions_path,
};
use gate_client::frames::{ping_frame, subscribe_frame, websocket_url};
use gate_client::json::{json_escape_bytes, json_val_bytes, JsonVal};
use gate_client::params::{body_bytes, encoded_query_string, query_string, BodyParams, QueryParams};
use gate_client::parse::parse_i64;

const EMPTY_SHA512: &str = "cf83e1357eefb8bdf1542850d66d8007d620e4050b5715dc83f4a921d36ce9ce47d0d13c5d85f2b0ff8318d2877eec2f63b931bd47417a81a538327af927da3e";

fn test_client() -> GateClient {
    GateClient::new(
        false,
        false,
        "my-api-key",
        "s3cr3t",
        "https://api.gateio.ws",
        "api/v4",
    )
}

#[test]
fn hex_encodes_bytes() {
    assert_eq!(hex_encode(&[]), b"".to_vec());
    assert_eq!(hex_encode(&[0x00, 0xab, 0xff]), b"00abff".to_vec());
}

#[test]
fn decimal_rendering() {
    assert_eq!(u64_to_dec(0), b"0".to_vec());
    assert_eq!(u64_to_dec(1700000000), b"1700000000".to_vec());
    assert_eq!(i64_to_dec(-123), b"-123".to_vec());
    assert_eq!(i64_to_dec(i64::MIN), b"-9223372036854775808".to_vec());
    assert_eq!(i64_to_dec(i64::MAX), b"9223372036854775807".to_vec());
}

#[test]
fn percent_encoding_escapes_reserved_bytes() {
    assert_eq!(pct_encode(b"abcXYZ019-_.~"), b"abcXYZ019-_.~".to_vec());
    assert_eq!(pct_encode(b"a b/c&d=e"), b"a%20b%2Fc%26d%3De".to_vec());
    // UTF-8 bytes of a non-ASCII character are escaped byte by byte.
    assert_eq!(pct_encode("é".as_bytes()), b"%C3%A9".to_vec());
}

#[test]
fn trimming_slashes() {
    assert_eq!(trim_leading_bytes(b"///a/b", 0x2f), b"a/b".to_vec());
    assert_eq!(trim_leading_bytes(b"a/b", 0x2f), b"a/b".to_vec());
    assert_eq!(trim_trailing_bytes(b"https://x.io//", 0x2f), b"https://x.io".to_vec());
    assert_eq!(trim_trailing_bytes(b"", 0x2f), b"".to_vec());
}

#[test]
fn byte_order_comparisons() {
    assert!(bytes_lt(b"a", b"b"));
    assert!(bytes_lt(b"a", b"ab"));
    assert!(!bytes_lt(b"b", b"ab"));
    assert!(!bytes_lt(b"a", b"a"));
    assert!(bytes_eq(b"same", b"same"));
    assert!(!bytes_eq(b"same", b"sam"));
}

#[test]
fn json_escaping() {
    assert_eq!(json_escape_bytes(b"plain"), b"plain".to_vec());
    assert_eq!(
        json_escape_bytes(b"a\"b\\c\nd\re\tf"),
        b"a\\\"b\\\\c\\nd\\re\\tf".to_vec()
    );
    assert_eq!(json_escape_bytes(&[0x01]), b"\\u0001".to_vec());
}

#[test]
fn json_values_serialize() {
    assert_eq!(json_val_bytes(&JsonVal::Bool(true)), b"true".to_vec());
    assert_eq!(json_val_bytes(&JsonVal::Bool(false)), b"false".to_vec());
    assert_eq!(json_val_bytes(&JsonVal::Int(-5)), b"-5".to_vec());
    assert_eq!(
        json_val_bytes(&JsonVal::Str("a\"b".to_string())),
        b"\"a\\\"b\"".to_vec()
    );
}

#[test]
fn query_params_sort_and_replace() {
    let mut q = QueryParams::new();
    q.insert("limit", "10");
    q.insert("contract", "BTC_USDT");
    q.insert("limit", "20");
    assert_eq!(query_string(&q), b"contract=BTC_USDT&limit=20".to_vec());
}

#[test]
fn query_serializations_agree_on_pairs() {
    // The signed query is unescaped and key-ordered; the URL query encodes
    // the same pairs in the same order.
    let mut q = QueryParams::new();
    q.insert("b", "2 2");
    q.insert("a", "1&x=9");
    assert_eq!(query_string(&q), b"a=1&x=9&b=2 2".to_vec());
    assert_eq!(encoded_query_string(&q), b"a=1%26x%3D9&b=2%202".to_vec());
}

#[test]
fn body_params_sort_into_canonical_json() {
    let mut b = BodyParams::new();
    b.insert("size", JsonVal::Int(1));
    b.insert("contract", JsonVal::Str("BTC_USDT".to_string()));
    b.insert("close", JsonVal::Bool(false));
    assert_eq!(
        body_bytes(&b),
        b"{\"close\":false,\"contract\":\"BTC_USDT\",\"size\":1}".to_vec()
    );
}

#[test]
fn empty_body_hash_constant() {
    assert_eq!(GateClient::sha512_hex(""), EMPTY_SHA512);
}

#[test]
fn sha512_hex_known_vector() {
    assert_eq!(
        GateClient::sha512_hex("abc"),
        "ddaf35a193617abacc417349ae20413112e6fa4e89a97ea20a9eeee64b55d39a2192992a274fc1a836ba3c23a3feebbd454d4423643ce80e2a9ac94fa54ca49f"
    );
}

#[test]
fn hmac_is_deterministic_and_reproducible() {
    let c = test_client();
    let first = c.hmac_sha512_hex("abc");
    let second = c.hmac_sha512_hex("abc");
    assert_eq!(first, second);
    assert_eq!(
        first,
        "4542f901fe3f584d12bbbb94338b899c127a6d137e1bf39755aa95db2272fc7fa235c1658e9988e845cccb9f982ecd20f3f22f30abb0140f57fb8f32fabf70c3"
    );
}

#[test]
fn golden_get_signature() {
    // GET /futures/usdt/contracts/BTC_USDT, empty query, timestamp
    // 1700000000, secret "s3cr3t": a fixed reproducible signature.
    let c = test_client();
    let q = QueryParams::new();
    let r = c.prepare_get("/futures/usdt/contracts/BTC_USDT", &q, 1700000000);
    assert_eq!(r.method, "GET");
    assert_eq!(
        r.url,
        "https://api.gateio.ws/api/v4/futures/usdt/contracts/BTC_USDT"
    );
    assert_eq!(r.timestamp, "1700000000");
    assert!(r.body.is_empty());
    assert_eq!(
        r.sign,
        "1436c26ea4341f8ef7c8d048ba985aa31f2ed93cc45fd4f75bcded590f2237e3d554b306e41af11355fb6d778a67365d78540d571cc72e972c9cceebc8ae237d"
    );
}

#[test]
fn get_url_carries_encoded_query() {
    let c = test_client();
    let mut q = QueryParams::new();
    q.insert("contract", "BTC USDT");
    let r = c.prepare_get("futures/usdt/positions", &q, 1);
    assert_eq!(
        r.url,
        "https://api.gateio.ws/api/v4/futures/usdt/positions?contract=BTC%20USDT"
    );
}

#[test]
fn golden_post_signature_covers_exact_body() {
    let c = test_client();
    let body = futures_order_params("BTC_USDT", 1, Some("30000"), None, None, Some("gtc"));
    let r = c.prepare_post("/futures/usdt/orders", &body, 1700000000);
    assert_eq!(r.method, "POST");
    assert_eq!(r.url, "https://api.gateio.ws/api/v4/futures/usdt/orders");
    assert_eq!(
        r.body,
        b"{\"contract\":\"BTC_USDT\",\"iceberg\":0,\"price\":\"30000\",\"size\":1,\"tif\":\"gtc\"}".to_vec()
    );
    // The signature was computed over the SHA-512 of exactly those bytes.
    assert_eq!(
        r.sign,
        "37b05657a1b3021858461092e067ef67e1e4354d650c17794524268cfb3e6e361194c4355c085e5cb8d02558835114ffaac652a5c9d8aa9d39632d4390e276c0"
    );
}

#[test]
fn post_body_serialized_once() {
    let c = test_client();
    let body = futures_order_params("ETH_USDT", -2, None, Some(true), Some("close_long"), None);
    let expected =
        b"{\"auto_size\":\"close_long\",\"close\":true,\"contract\":\"ETH_USDT\",\"iceberg\":0,\"size\":-2}"
            .to_vec();
    assert_eq!(body_bytes(&body), expected);
    let r = c.prepare_post("futures/usdt/orders", &body, 7);
    assert_eq!(r.body, expected);
}

#[test]
fn request_headers() {
    let c = test_client();
    let r = c.prepare_get("futures/usdt/accounts", &QueryParams::new(), 42);
    let h = r.header_pairs();
    assert_eq!(h.len(), 5);
    assert_eq!(h[0], ("Accept".to_string(), "application/json".to_string()));
    assert_eq!(
        h[1],
        ("Content-Type".to_string(), "application/json".to_string())
    );
    assert_eq!(h[2].0, "SIGN");
    assert_eq!(h[2].1, r.sign);
    assert_eq!(h[3], ("Timestamp".to_string(), "42".to_string()));
    assert_eq!(h[4], ("KEY".to_string(), "my-api-key".to_string()));
}

#[test]
fn endpoint_paths() {
    assert_eq!(
        futures_positions_path("usdt", "BTC_USDT"),
        "/futures/usdt/positions/BTC_USDT"
    );
    assert_eq!(futures_account_path("usdt"), "/futures/usdt/accounts");
    assert_eq!(
        futures_contract_path("usdt", "BTC_USDT"),
        "/futures/usdt/contracts/BTC_USDT"
    );
    assert_eq!(futures_orders_path("usdt"), "/futures/usdt/orders");
    assert_eq!(
        futures_order_detail_path("usdt", "12345"),
        "/futures/usdt/orders/12345"
    );
}

#[test]
fn client_keeps_credentials() {
    let c = test_client();
    assert_eq!(c.api_key, "my-api-key");
    assert_eq!(c.secret_key, "s3cr3t");
    assert_eq!(c.domain, "https://api.gateio.ws");
    assert_eq!(c.prefix, "api/v4");
    assert!(!c.debug);
    assert!(!c.testnet);
}

#[test]
fn websocket_url_shape() {
    assert_eq!(
        websocket_url("fx-ws.gateio.ws"),
        "wss://fx-ws.gateio.ws/v4/ws/usdt"
    );
}

#[test]
fn subscribe_frame_shape() {
    assert_eq!(
        subscribe_frame(1700000000, "1m", "BTC_USD"),
        "{\"channel\":\"futures.candlesticks\",\"event\":\"subscribe\",\"payload\":[\"1m\",\"BTC_USD\"],\"time\":1700000000}"
    );
}

#[test]
fn ping_frame_shape() {
    assert_eq!(ping_frame(1700000001), "{\"op\":\"ping\",\"ping\":1700000001}");
}

#[test]
fn parse_i64_accepts_integers() {
    assert_eq!(parse_i64("0"), Some(0));
    assert_eq!(parse_i64("42"), Some(42));
    assert_eq!(parse_i64("+42"), Some(42));
    assert_eq!(parse_i64("-42"), Some(-42));
    assert_eq!(parse_i64("007"), Some(7));
    assert_eq!(parse_i64("9223372036854775807"), Some(i64::MAX));
    assert_eq!(parse_i64("-9223372036854775808"), Some(i64::MIN));
}

#[test]
fn parse_i64_rejects_malformed_and_overflowing() {
    assert_eq!(parse_i64(""), None);
    assert_eq!(parse_i64("-"), None);
    assert_eq!(parse_i64("+"), None);
    assert_eq!(parse_i64(" 5"), None);
    assert_eq!(parse_i64("5 "), None);
    assert_eq!(parse_i64("1.5"), None);
    assert_eq!(parse_i64("12a"), None);
    assert_eq!(parse_i64("9223372036854775808"), None);
    assert_eq!(parse_i64("-9223372036854775809"), None);
    assert_eq!(parse_i64("99999999999999999999"), None);
}
