//! Plain data returned by the REST endpoints.
use vstd::prelude::*;

verus! {

/// One futures contract's description, as the contract query returns it.
/// Rates and prices arrive as decimal strings and are kept verbatim.
#[derive(Debug, Clone)]
pub struct ContractInfo {
    pub name: String,
    pub contract_type: String,
    pub quanto_multiplier: String,
    pub ref_discount_rate: String,
    pub order_price_deviate: String,
    pub maintenance_rate: String,
    pub mark_type: String,
    pub last_price: String,
    pub mark_price: String,
    pub index_price: String,
    pub funding_rate_indicative: String,
    pub mark_price_round: String,
    pub funding_offset: i64,
    pub in_delisting: bool,
    pub risk_limit_base: String,
    pub interest_rate: String,
    pub order_price_round: String,
    pub order_size_min: i64,
    pub ref_rebate_rate: String,
    pub funding_interval: i64,
    pub risk_limit_step: String,
    pub leverage_min: String,
    pub leverage_max: String,
    pub risk_limit_max: String,
    pub maker_fee_rate: String,
    pub taker_fee_rate: String,
    pub funding_rate: String,
    pub order_size_max: i64,
    pub funding_next_apply: i64,
    pub short_users: i64,
    pub config_change_time: i64,
    pub trade_size: i64,
    pub position_size: i64,
    pub long_users: i64,
    pub funding_impact_value: String,
    pub orders_limit: i64,
    pub trade_id: i64,
    pub orderbook_id: i64,
    pub enable_bonus: bool,
    pub enable_credit: bool,
    pub create_time: i64,
    pub funding_cap_ratio: String,
}

} // verus!
