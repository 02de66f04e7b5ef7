//! Rates read from the stNEAR staking contract.
use crate::errors::ExchangeError;
use crate::rated_swap::PRECISION;
use vstd::prelude::*;
use vstd::string::*;

verus! {

/// The rates of the tokens of an stNEAR pool, and when they were last read.
#[derive(Clone, Debug)]
pub struct StnearRates {
    /// *
    pub stored_rates: Vec<u128>,
    /// *
    pub rates_updated_at: u64,
    /// *
    pub contract_id: String,
}

/// Rates of a rated pool, by the kind of contract they come from.
#[derive(Clone, Debug)]
pub enum Rates {
    Stnear(StnearRates),
}

impl StnearRates {
    /// One to one for every token until the first reading.
    pub fn new(contract_id: String, tokens_count: usize) -> (r: StnearRates)
        ensures
            r.stored_rates@ == Seq::new(tokens_count as nat, |i: int| PRECISION),
            r.rates_updated_at == 0,
            r.contract_id == contract_id,
    {
        let mut stored_rates: Vec<u128> = Vec::new();
        let mut i: usize = 0;
        while i < tokens_count
            invariant
                i <= tokens_count,
                stored_rates@ == Seq::new(i as nat, |j: int| PRECISION),
            decreases tokens_count - i,
        {
            stored_rates.push(PRECISION);
            i = i + 1;
        }
        StnearRates { stored_rates, rates_updated_at: 0, contract_id }
    }

    /// Whether the rates were read in the epoch `epoch_height`, so that no new reading is
    /// needed.
    pub fn is_current(&self, epoch_height: u64) -> (r: bool)
        ensures
            r == (self.rates_updated_at == epoch_height),
    {
        self.rates_updated_at == epoch_height
    }

    /// Takes the stNEAR price read in epoch `epoch_height`: stNEAR at `price`, NEAR at one.
    pub fn rates_callback(&mut self, price: u128, epoch_height: u64) -> (r: bool)
        ensures
            r,
            final(self).stored_rates@ == seq![price, PRECISION],
            final(self).rates_updated_at == epoch_height,
            final(self).contract_id == old(self).contract_id,
    {
        self.stored_rates = vec![price, PRECISION];
        self.rates_updated_at = epoch_height;
        true
    }
}

impl Rates {
    /// Rates of the kind `rates_type` read from `contract_id`; only "STNEAR" is known.
    pub fn new(rates_type: &String, contract_id: String, tokens_count: usize) -> (r: Result<Rates, ExchangeError>)
        ensures
            rates_type@ == "STNEAR"@ ==> (r matches Ok(Rates::Stnear(s)) && s.stored_rates@ == Seq::new(tokens_count as nat, |i: int| PRECISION) && s.rates_updated_at == 0 && s.contract_id == contract_id),
            rates_type@ != "STNEAR"@ ==> r == Err::<Rates, ExchangeError>(ExchangeError::Unsupported),
    {
        let stnear = String::from_str("STNEAR");
        if *rates_type == stnear {
            Ok(Rates::Stnear(StnearRates::new(contract_id, tokens_count)))
        } else {
            Err(ExchangeError::Unsupported)
        }
    }

    /// The stored rates.
    pub fn get(&self) -> (r: &Vec<u128>)
        ensures
            match self {
                Rates::Stnear(s) => r@ == s.stored_rates@,
            },
    {
        match self {
            Rates::Stnear(s) => &s.stored_rates,
        }
    }
}

} // verus!
