//! The rate of LiNEAR, read from its contract's `ft_price`.
use crate::rated_swap::PRECISION;
use vstd::prelude::*;

verus! {

/// How long a read rate stays valid: 24 hours, in nanoseconds.
pub const LINEAR_EXPIRE_TS: u64 = 86_400_000_000_000;

/// The rate of a LiNEAR token and when it was read.
#[derive(Clone, Debug)]
pub struct LinearRate {
    /// *
    pub stored_rates: u128,
    /// *
    pub rates_updated_at: u64,
    /// *
    pub contract_id: String,
}

impl LinearRate {
    /// One to one until the first reading.
    pub fn new(contract_id: String) -> (r: LinearRate)
        ensures
            r.stored_rates == PRECISION,
            r.rates_updated_at == 0,
            r.contract_id == contract_id,
    {
        LinearRate { stored_rates: PRECISION, rates_updated_at: 0, contract_id }
    }

    /// Whether the rate read is still valid at `now`.
    pub fn are_actual(&self, now: u64) -> (r: bool)
        ensures
            r == (now <= self.rates_updated_at + LINEAR_EXPIRE_TS),
    {
        (now as u128) <= self.rates_updated_at as u128 + LINEAR_EXPIRE_TS as u128
    }

    /// The stored rate.
    pub fn get(&self) -> (r: u128)
        ensures
            r == self.stored_rates,
    {
        self.stored_rates
    }

    /// When the rate was read.
    pub fn last_update_ts(&self) -> (r: u64)
        ensures
            r == self.rates_updated_at,
    {
        self.rates_updated_at
    }

    /// Takes the price the contract reported at `now`, and returns it.
    pub fn set(&mut self, price: u128, now: u64) -> (r: u128)
        ensures
            r == price,
            final(self).stored_rates == price,
            final(self).rates_updated_at == now,
            final(self).contract_id == old(self).contract_id,
    {
        self.stored_rates = price;
        self.rates_updated_at = now;
        price
    }
}

} // verus!
