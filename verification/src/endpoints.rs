//! The futures endpoints: request paths and the order body, built exactly.
use vstd::prelude::*;

verus! {

use vstd::utf8::{encode_utf8, valid_utf8_concat, encode_utf8_valid_utf8};
use vstd::string::{StringSliceAdditionalSpecFns, StringExecFns};
use crate::encode::{dec_i64_of, string_from_utf8};
use crate::json::{JsonVal, json_str_of, json_bool_of};
use crate::params::{BodyParams, append_str, insert_pair};

/// Joins three path segments into one string.
fn join3(a: &str, b: &str, c: &str) -> (r: String)
    ensures
        encode_utf8(r@) == a.spec_bytes() + b.spec_bytes() + c.spec_bytes(),
{
    let mut v: Vec<u8> = Vec::new();
    append_str(&mut v, a);
    append_str(&mut v, b);
    append_str(&mut v, c);
    proof {
        encode_utf8_valid_utf8(a@);
        encode_utf8_valid_utf8(b@);
        encode_utf8_valid_utf8(c@);
        valid_utf8_concat(a.spec_bytes(), b.spec_bytes());
        valid_utf8_concat(a.spec_bytes() + b.spec_bytes(), c.spec_bytes());
        assert(v@ =~= (a.spec_bytes() + b.spec_bytes()) + c.spec_bytes());
        assert(v@ =~= a.spec_bytes() + b.spec_bytes() + c.spec_bytes());
    }
    string_from_utf8(v)
}

/// Joins four path segments into one string.
fn join4(a: &str, b: &str, c: &str, d: &str) -> (r: String)
    ensures
        encode_utf8(r@) == a.spec_bytes() + b.spec_bytes() + c.spec_bytes() + d.spec_bytes(),
{
    let mut v: Vec<u8> = Vec::new();
    append_str(&mut v, a);
    append_str(&mut v, b);
    append_str(&mut v, c);
    append_str(&mut v, d);
    proof {
        encode_utf8_valid_utf8(a@);
        encode_utf8_valid_utf8(b@);
        encode_utf8_valid_utf8(c@);
        encode_utf8_valid_utf8(d@);
        valid_utf8_concat(a.spec_bytes(), b.spec_bytes());
        valid_utf8_concat(a.spec_bytes() + b.spec_bytes(), c.spec_bytes());
        valid_utf8_concat((a.spec_bytes() + b.spec_bytes()) + c.spec_bytes(), d.spec_bytes());
        assert(v@ =~= ((a.spec_bytes() + b.spec_bytes()) + c.spec_bytes()) + d.spec_bytes());
        assert(v@ =~= a.spec_bytes() + b.spec_bytes() + c.spec_bytes() + d.spec_bytes());
    }
    string_from_utf8(v)
}

/// The path of one position: `/futures/{settle}/positions/{contract}`.
pub fn futures_positions_path(settle: &str, contract: &str) -> (r: String)
    ensures
        encode_utf8(r@) == "/futures/".spec_bytes() + settle.spec_bytes()
            + "/positions/".spec_bytes() + contract.spec_bytes(),
{
    join4("/futures/", settle, "/positions/", contract)
}

/// The path of the account query: `/futures/{settle}/accounts`.
pub fn futures_account_path(settle: &str) -> (r: String)
    ensures
        encode_utf8(r@) == "/futures/".spec_bytes() + settle.spec_bytes()
            + "/accounts".spec_bytes(),
{
    join3("/futures/", settle, "/accounts")
}

/// The path of one contract's information:
/// `/futures/{settle}/contracts/{contract}`.
pub fn futures_contract_path(settle: &str, contract: &str) -> (r: String)
    ensures
        encode_utf8(r@) == "/futures/".spec_bytes() + settle.spec_bytes()
            + "/contracts/".spec_bytes() + contract.spec_bytes(),
{
    join4("/futures/", settle, "/contracts/", contract)
}

/// The path that order placement posts to: `/futures/{settle}/orders`.
pub fn futures_orders_path(settle: &str) -> (r: String)
    ensures
        encode_utf8(r@) == "/futures/".spec_bytes() + settle.spec_bytes() + "/orders".spec_bytes(),
{
    join3("/futures/", settle, "/orders")
}

/// The path of one order's details: `/futures/{settle}/orders/{order_id}`.
pub fn futures_order_detail_path(settle: &str, order_id: &str) -> (r: String)
    ensures
        encode_utf8(r@) == "/futures/".spec_bytes() + settle.spec_bytes() + "/orders/".spec_bytes()
            + order_id.spec_bytes(),
{
    join4("/futures/", settle, "/orders/", order_id)
}

/// The body of an order placement: contract, size and iceberg always; price,
/// close, auto_size and tif only when given.
pub fn futures_order_params(
    contract: &str,
    size: i64,
    price: Option<&str>,
    close: Option<bool>,
    auto_size: Option<&str>,
    tif: Option<&str>,
) -> (r: BodyParams)
    ensures
        r.wf(),
        r@ == ({
            let m0 = insert_pair(
                Seq::<(Seq<u8>, Seq<u8>)>::empty(),
                "contract".spec_bytes(),
                json_str_of(contract.spec_bytes()),
            );
            let m1 = insert_pair(m0, "size".spec_bytes(), dec_i64_of(size as int));
            let m2 = insert_pair(m1, "iceberg".spec_bytes(), dec_i64_of(0));
            let m3 = if price is Some {
                insert_pair(m2, "price".spec_bytes(), json_str_of(price->0.spec_bytes()))
            } else {
                m2
            };
            let m4 = if close is Some {
                insert_pair(m3, "close".spec_bytes(), json_bool_of(close->0))
            } else {
                m3
            };
            let m5 = if auto_size is Some {
                insert_pair(m4, "auto_size".spec_bytes(), json_str_of(auto_size->0.spec_bytes()))
            } else {
                m4
            };
            if tif is Some {
                insert_pair(m5, "tif".spec_bytes(), json_str_of(tif->0.spec_bytes()))
            } else {
                m5
            }
        }),
{
    let mut params = BodyParams::new();
    params.insert("contract", JsonVal::Str(String::from_str(contract)));
    params.insert("size", JsonVal::Int(size));
    params.insert("iceberg", JsonVal::Int(0));
    if let Some(p) = price {
        params.insert("price", JsonVal::Str(String::from_str(p)));
    }
    if let Some(c) = close {
        params.insert("close", JsonVal::Bool(c));
    }
    if let Some(a) = auto_size {
        params.insert("auto_size", JsonVal::Str(String::from_str(a)));
    }
    if let Some(t) = tif {
        params.insert("tif", JsonVal::Str(String::from_str(t)));
    }
    params
}

} // verus!
