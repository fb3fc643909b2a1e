//! The exchange client: credentials and endpoint location.
use vstd::prelude::*;

verus! {

use vstd::string::StringExecFns;

/// Configuration of one API client: credentials and endpoint location.
/// The secret key is never sent; it only keys the request signatures.
#[derive(Debug, Clone)]
pub struct GateClient {
    pub debug: bool,
    pub testnet: bool,
    pub api_key: String,
    pub secret_key: String,
    pub domain: String,
    pub prefix: String,
}

impl GateClient {
    /// Builds a client from its credentials, domain and path prefix.
    pub fn new(
        debug: bool,
        testnet: bool,
        api_key: &str,
        secret_key: &str,
        domain: &str,
        prefix: &str,
    ) -> (r: GateClient)
        ensures
            r.debug == debug,
            r.testnet == testnet,
            r.api_key@ == api_key@,
            r.secret_key@ == secret_key@,
            r.domain@ == domain@,
            r.prefix@ == prefix@,
    {
        GateClient {
            debug,
            testnet,
            api_key: String::from_str(api_key),
            secret_key: String::from_str(secret_key),
            domain: String::from_str(domain),
            prefix: String::from_str(prefix),
        }
    }
}

} // verus!
