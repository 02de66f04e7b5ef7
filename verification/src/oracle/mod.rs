//! What the exchange reads from price oracles.
pub mod price_oracle;
pub mod pyth_oracle;
