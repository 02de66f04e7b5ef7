//! Replies of a price oracle contract.
use vstd::prelude::*;

verus! {

/// A price: `multiplier` in units of `10^-decimals`.
#[derive(Clone, Debug)]
pub struct Price {
    pub multiplier: u128,
    pub decimals: u8,
}

/// The price of one asset, where the oracle has one.
#[derive(Clone, Debug)]
pub struct AssetOptionalPrice {
    pub asset_id: String,
    pub price: Option<Price>,
}

/// A batch of prices and when they were taken.
#[derive(Clone, Debug)]
pub struct PriceData {
    /// Nanoseconds.
    pub timestamp: u64,
    pub recency_duration_sec: u32,
    pub prices: Vec<AssetOptionalPrice>,
}

} // verus!
