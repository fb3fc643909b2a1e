//! Client library for a crypto-derivatives exchange: a request signer
//! (HMAC-SHA512 over a canonical string), builders for signed REST requests,
//! and the state machine of a resilient streaming market-data session.
pub mod encode;
pub mod json;
pub mod params;
pub mod parse;
pub mod client;
pub mod model;
pub mod sign;
pub mod request;
pub mod endpoints;
pub mod frames;
pub mod session;
