//! The rate of stNEAR, read from the Meta Pool contract's `get_st_near_price` once per epoch.
use crate::rated_swap::PRECISION;
use vstd::prelude::*;

verus! {

/// The rate of a stNEAR token and the epoch it was read in.
#[derive(Clone, Debug)]
pub struct StnearRate {
    /// *
    pub stored_rates: u128,
    /// *
    pub rates_updated_at: u64,
    /// *
    pub contract_id: String,
}

impl StnearRate {
    /// One to one until the first reading.
    pub fn new(contract_id: String) -> (r: StnearRate)
        ensures
            r.stored_rates == PRECISION,
            r.rates_updated_at == 0,
            r.contract_id == contract_id,
    {
        StnearRate { stored_rates: PRECISION, rates_updated_at: 0, contract_id }
    }

    /// Whether the rate was read in the current epoch.
    pub fn are_actual(&self, epoch_height: u64) -> (r: bool)
        ensures
            r == (self.rates_updated_at == epoch_height),
    {
        self.rates_updated_at == epoch_height
    }

    /// The stored rate.
    pub fn get(&self) -> (r: u128)
        ensures
            r == self.stored_rates,
    {
        self.stored_rates
    }

    /// The epoch the rate was read in.
    pub fn last_update_ts(&self) -> (r: u64)
        ensures
            r == self.rates_updated_at,
    {
        self.rates_updated_at
    }

    /// Takes the price the contract reported in epoch `epoch_height`, and returns it.
    pub fn set(&mut self, price: u128, epoch_height: u64) -> (r: u128)
        ensures
            r == price,
            final(self).stored_rates == price,
            final(self).rates_updated_at == epoch_height,
            final(self).contract_id == old(self).contract_id,
    {
        self.stored_rates = price;
        self.rates_updated_at = epoch_height;
        price
    }
}

} // verus!
