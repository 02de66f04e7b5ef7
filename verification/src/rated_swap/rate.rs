//! Rates of rated tokens, by the kind of contract they are read from, and the registry of
//! rated tokens.
use crate::errors::ExchangeError;
use crate::rated_swap::linear_rate::LinearRate;
use crate::rated_swap::stnear_rate::StnearRate;
use crate::rated_swap::PRECISION;
use vstd::hash_map::StringHashMap;
use vstd::prelude::*;
use vstd::string::*;

verus! {

/// The rate of a rated token.
#[derive(Clone, Debug)]
pub enum Rate {
    Stnear(StnearRate),
    Linear(LinearRate),
}

/// The rate a new token of a kind starts with, read from the token's contract: stNEAR's for
/// "STNEAR", LiNEAR's otherwise; one to one, never read.
pub open spec fn new_rate(rates_type: Seq<char>, token_id: String) -> Rate {
    if rates_type == "STNEAR"@ {
        Rate::Stnear(StnearRate { stored_rates: PRECISION, rates_updated_at: 0, contract_id: token_id })
    } else {
        Rate::Linear(LinearRate { stored_rates: PRECISION, rates_updated_at: 0, contract_id: token_id })
    }
}

/// Whether the rate read is still valid at time `now` in epoch `epoch_height`: a stNEAR rate
/// for the epoch it was read in, a LiNEAR rate for a day.
pub open spec fn rate_actual(r: Rate, now: u64, epoch_height: u64) -> bool {
    match r {
        Rate::Stnear(s) => s.rates_updated_at == epoch_height,
        Rate::Linear(l) => now <= l.rates_updated_at + crate::rated_swap::linear_rate::LINEAR_EXPIRE_TS,
    }
}

/// The rate after a reading of `price` at time `now` in epoch `epoch_height`: a stNEAR rate
/// records the epoch, a LiNEAR rate the time.
pub open spec fn rate_read(r: Rate, price: u128, now: u64, epoch_height: u64) -> Rate {
    match r {
        Rate::Stnear(s) => Rate::Stnear(StnearRate { stored_rates: price, rates_updated_at: epoch_height, ..s }),
        Rate::Linear(l) => Rate::Linear(LinearRate { stored_rates: price, rates_updated_at: now, ..l }),
    }
}

impl Rate {
    /// A rate of the kind `rates_type`, "STNEAR" or "LINEAR", read from `contract_id`.
    pub fn new(rates_type: &String, contract_id: String) -> (r: Result<Rate, ExchangeError>)
        ensures
            (rates_type@ == "STNEAR"@ || rates_type@ == "LINEAR"@) ==> r == Ok::<Rate, ExchangeError>(new_rate(rates_type@, contract_id)),
            !(rates_type@ == "STNEAR"@ || rates_type@ == "LINEAR"@) ==> r == Err::<Rate, ExchangeError>(ExchangeError::InvalidRateType),
    {
        if *rates_type == String::from_str("STNEAR") {
            Ok(Rate::Stnear(StnearRate::new(contract_id)))
        } else if *rates_type == String::from_str("LINEAR") {
            proof {
                reveal_strlit("STNEAR");
                reveal_strlit("LINEAR");
                assert("STNEAR"@[0] != "LINEAR"@[0]);
            }
            Ok(Rate::Linear(LinearRate::new(contract_id)))
        } else {
            Err(ExchangeError::InvalidRateType)
        }
    }

    /// The name of the rate's kind.
    pub fn get_type(&self) -> (r: String)
        ensures
            r@ == match *self {
                Rate::Stnear(_) => "STNEAR"@,
                Rate::Linear(_) => "LINEAR"@,
            },
    {
        match self {
            Rate::Stnear(_) => String::from_str("STNEAR"),
            Rate::Linear(_) => String::from_str("LINEAR"),
        }
    }

    /// Whether `rates_type` names a kind of rate: "STNEAR" or "LINEAR".
    pub fn is_valid_rate_type(rates_type: &String) -> (r: bool)
        ensures
            r == (rates_type@ == "STNEAR"@ || rates_type@ == "LINEAR"@),
    {
        *rates_type == String::from_str("STNEAR") || *rates_type == String::from_str("LINEAR")
    }

    /// Whether the rate read is still valid at time `now` in epoch `epoch_height`.
    pub fn are_actual(&self, now: u64, epoch_height: u64) -> (r: bool)
        ensures
            r == rate_actual(*self, now, epoch_height),
    {
        match self {
            Rate::Stnear(rates) => rates.are_actual(epoch_height),
            Rate::Linear(rates) => rates.are_actual(now),
        }
    }

    /// The stored rate.
    pub fn get(&self) -> (r: u128)
        ensures
            r == match *self {
                Rate::Stnear(s) => s.stored_rates,
                Rate::Linear(l) => l.stored_rates,
            },
    {
        match self {
            Rate::Stnear(rates) => rates.get(),
            Rate::Linear(rates) => rates.get(),
        }
    }

    /// When the rate was read: the epoch for stNEAR, the time for LiNEAR.
    pub fn last_update_ts(&self) -> (r: u64)
        ensures
            r == match *self {
                Rate::Stnear(s) => s.rates_updated_at,
                Rate::Linear(l) => l.rates_updated_at,
            },
    {
        match self {
            Rate::Stnear(rates) => rates.last_update_ts(),
            Rate::Linear(rates) => rates.last_update_ts(),
        }
    }

    /// Takes the price read at time `now` in epoch `epoch_height`, and returns it.
    pub fn set(&mut self, price: u128, now: u64, epoch_height: u64) -> (r: u128)
        ensures
            r == price,
            *final(self) == rate_read(*old(self), price, now, epoch_height),
    {
        match self {
            Rate::Stnear(rates) => rates.set(price, epoch_height),
            Rate::Linear(rates) => rates.set(price, now),
        }
    }
}

/// Register a rate token with given type: `Ok(true)` and the new rate where the token was not
/// registered, `Ok(false)` and no change where it was; refused where the type names no kind
/// of rate.
pub fn global_register_rate(rates: &mut StringHashMap<Rate>, rate_type: &String, token_id: &String) -> (r: Result<bool, ExchangeError>)
    ensures
        !(rate_type@ == "STNEAR"@ || rate_type@ == "LINEAR"@) ==> r == Err::<bool, ExchangeError>(ExchangeError::InvalidRateType) && final(rates)@ == old(rates)@,
        (rate_type@ == "STNEAR"@ || rate_type@ == "LINEAR"@) && old(rates)@.contains_key(token_id@) ==> r == Ok::<bool, ExchangeError>(false) && final(rates)@ == old(rates)@,
        (rate_type@ == "STNEAR"@ || rate_type@ == "LINEAR"@) && !old(rates)@.contains_key(token_id@) ==> r == Ok::<bool, ExchangeError>(true)
            && final(rates)@ == old(rates)@.insert(token_id@, new_rate(rate_type@, *token_id)),
{
    if !Rate::is_valid_rate_type(rate_type) {
        return Err(ExchangeError::InvalidRateType);
    }
    if !rates.contains_key(token_id.as_str()) {
        let rate = Rate::new(rate_type, token_id.clone())?;
        rates.insert(token_id.clone(), rate);
        Ok(true)
    } else {
        Ok(false)
    }
}

/// Unregister a rate token: `false`, and no change, where it is not registered.
pub fn global_unregister_rate(rates: &mut StringHashMap<Rate>, token_id: &String) -> (r: bool)
    ensures
        r == old(rates)@.contains_key(token_id@),
        final(rates)@ == old(rates)@.remove(token_id@),
{
    if rates.contains_key(token_id.as_str()) {
        rates.remove(token_id.as_str());
        true
    } else {
        assert(rates@ =~= rates@.remove(token_id@));
        false
    }
}

/// The rate of a token, where it is rated.
pub fn global_get_rate<'a>(rates: &'a StringHashMap<Rate>, token_id: &String) -> (r: Option<&'a Rate>)
    ensures
        match r {
            Some(v) => rates@.contains_key(token_id@) && *v == rates@[token_id@],
            None => !rates@.contains_key(token_id@),
        },
{
    rates.get(token_id.as_str())
}

/// Stores the rate of a token.
pub fn global_set_rate(rates: &mut StringHashMap<Rate>, token_id: &String, rate: Rate)
    ensures
        final(rates)@ == old(rates)@.insert(token_id@, rate),
{
    rates.insert(token_id.clone(), rate);
}

/// Whether the token's rate is valid at time `now` in epoch `epoch_height`; a token that is
/// not rated always is.
pub fn is_global_rate_valid(rates: &StringHashMap<Rate>, token_id: &String, now: u64, epoch_height: u64) -> (r: bool)
    ensures
        r == match rates@.get(token_id@) {
            Some(rate) => rate_actual(rate, now, epoch_height),
            None => true,
        },
{
    match rates.get(token_id.as_str()) {
        Some(rate) => rate.are_actual(now, epoch_height),
        None => true,
    }
}

/// Takes a rate read for a token at time `now` in epoch `epoch_height`, where the token is
/// rated: the stored rate becomes `price`, which is returned.
pub fn update_token_rate_callback(rates: &mut StringHashMap<Rate>, token_id: &String, price: u128, now: u64, epoch_height: u64) -> (r: Option<u128>)
    ensures
        !old(rates)@.contains_key(token_id@) ==> r is None && final(rates)@ == old(rates)@,
        old(rates)@.contains_key(token_id@) ==> r == Some(price)
            && final(rates)@ == old(rates)@.insert(token_id@, rate_read(old(rates)@[token_id@], price, now, epoch_height)),
{
    let mut rate = match rates.get(token_id.as_str()) {
        Some(Rate::Stnear(s)) => Rate::Stnear(StnearRate { stored_rates: s.stored_rates, rates_updated_at: s.rates_updated_at, contract_id: s.contract_id.clone() }),
        Some(Rate::Linear(l)) => Rate::Linear(LinearRate { stored_rates: l.stored_rates, rates_updated_at: l.rates_updated_at, contract_id: l.contract_id.clone() }),
        None => {
            return None;
        },
    };
    let new_rate = rate.set(price, now, epoch_height);
    global_set_rate(rates, token_id, rate);
    Some(new_rate)
}

} // verus!
