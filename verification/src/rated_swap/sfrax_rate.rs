//! The rate of sFRAX against FRAX, read from a price oracle or from Pyth.
use crate::errors::ExchangeError;
use crate::oracle::price_oracle::PriceData;
use crate::oracle::pyth_oracle::{Price, PriceIdentifier};
use crate::rated_swap::PRECISION;
use crate::stable_swap::{lemma_ten_pow_mono, ten_pow};
use crate::u256::{U256, u256_max};
use crate::utils::to_nano;
use vstd::prelude::*;

verus! {

/// How long a rate stays usable: 24 hours, in nanoseconds.
pub const EXPIRE_TS: u64 = 86_400_000_000_000;

/// Longest allowed validity window of an oracle price, in seconds.
pub const MAX_DURATION_SEC: u32 = 300;

/// Shortest allowed validity window of an oracle price, in seconds.
pub const MIN_DURATION_SEC: u32 = 10;

/// Where the rate is read from the price oracle contract.
#[derive(Clone, Debug)]
pub struct PriceOracle {
    pub oracle_id: String,
    pub base_contract_id: String,
    /// The maximum number of seconds expected from the oracle price call.
    pub maximum_recency_duration_sec: u32,
    /// Maximum staleness duration of the price data timestamp.
    pub maximum_staleness_duration_sec: u32,
}

/// Where the rate is read from Pyth.
#[derive(Clone, Debug)]
pub struct PythOracle {
    pub oracle_id: String,
    pub base_price_identifier: PriceIdentifier,
    pub rate_price_identifier: PriceIdentifier,
    /// The valid duration to pyth price in seconds.
    pub pyth_price_valid_duration_sec: u32,
}

/// The oracle a rate is read from.
#[derive(Clone, Debug)]
pub enum SfraxExtraInfo {
    PriceOracle(PriceOracle),
    PythOracle(PythOracle),
}

/// What an oracle answered, once read: the price oracle's batch of prices, the two Pyth
/// prices of the base and the rate token, or nothing readable.
#[derive(Clone, Debug)]
pub enum OracleReply {
    Prices(PriceData),
    PythPair(Price, Price),
    Malformed,
}

/// The rate of sFRAX and when it was read.
#[derive(Clone, Debug)]
pub struct SfraxRate {
    /// *
    pub stored_rates: u128,
    /// *
    pub rates_updated_at: u64,
    /// *
    pub contract_id: String,
    /// *
    pub extra_info: SfraxExtraInfo,
}

/// Whether the oracle's validity window lies within the allowed bounds.
pub open spec fn extra_info_valid(e: SfraxExtraInfo) -> bool {
    match e {
        SfraxExtraInfo::PriceOracle(o) => MIN_DURATION_SEC <= o.maximum_staleness_duration_sec <= MAX_DURATION_SEC,
        SfraxExtraInfo::PythOracle(o) => MIN_DURATION_SEC <= o.pyth_price_valid_duration_sec <= MAX_DURATION_SEC,
    }
}

impl SfraxExtraInfo {
    /// Refuses a validity window outside `[MIN_DURATION_SEC, MAX_DURATION_SEC]`.
    pub fn assert_valid(&self) -> (r: Result<(), ExchangeError>)
        ensures
            extra_info_valid(*self) ==> r is Ok,
            !extra_info_valid(*self) ==> r == Err::<(), ExchangeError>(match *self {
                SfraxExtraInfo::PriceOracle(_) => ExchangeError::InvalidStalenessDuration,
                SfraxExtraInfo::PythOracle(_) => ExchangeError::InvalidPythDuration,
            }),
    {
        match self {
            SfraxExtraInfo::PriceOracle(e) => {
                if e.maximum_staleness_duration_sec >= MIN_DURATION_SEC && e.maximum_staleness_duration_sec <= MAX_DURATION_SEC {
                    Ok(())
                } else {
                    Err(ExchangeError::InvalidStalenessDuration)
                }
            },
            SfraxExtraInfo::PythOracle(e) => {
                if e.pyth_price_valid_duration_sec >= MIN_DURATION_SEC && e.pyth_price_valid_duration_sec <= MAX_DURATION_SEC {
                    Ok(())
                } else {
                    Err(ExchangeError::InvalidPythDuration)
                }
            },
        }
    }
}

/// The rate from the price oracle's batch `d` read at `now`: the rate token's price over the
/// base token's, at `PRECISION`; refused where the batch is too old, from the future, not
/// for the two tokens, or missing a price.
pub open spec fn spec_price_oracle_rate(o: PriceOracle, contract_id: Seq<char>, d: PriceData, now: u64) -> Result<nat, ExchangeError> {
    if d.recency_duration_sec > o.maximum_recency_duration_sec {
        Err(ExchangeError::RecencyTooLarge)
    } else if d.timestamp > now {
        Err(ExchangeError::PriceInFuture)
    } else if now - d.timestamp > o.maximum_staleness_duration_sec * 1_000_000_000 {
        Err(ExchangeError::PriceTooStale)
    } else if d.prices@.len() < 2 || d.prices@[0].asset_id@ != o.base_contract_id@ || d.prices@[1].asset_id@ != contract_id {
        Err(ExchangeError::PriceAssetMismatch)
    } else {
        match d.prices@[0].price {
            None => Err(ExchangeError::MissingBasePrice),
            Some(base) => match d.prices@[1].price {
                None => Err(ExchangeError::MissingRatePrice),
                Some(rate) => if base.decimals != rate.decimals {
                    Err(ExchangeError::DecimalsInconsistency)
                } else if base.multiplier == 0 || (PRECISION as nat) * (rate.multiplier as nat) / (base.multiplier as nat) > u128::MAX {
                    Err(ExchangeError::ArithmeticOverflow)
                } else {
                    Ok((PRECISION as nat) * (rate.multiplier as nat) / (base.multiplier as nat))
                },
            },
        }
    }
}

/// `|expo|`.
pub open spec fn expo_abs(expo: i32) -> nat {
    if expo >= 0 {
        expo as nat
    } else {
        (-expo) as nat
    }
}

/// A positive Pyth price at `PRECISION`: `PRECISION * price * 10^expo`, or
/// `PRECISION * price / 10^-expo` for an exponent that is not positive; `None` where a power
/// or a product leaves its integer type.
pub open spec fn spec_pyth_scaled(price: nat, expo: i32) -> Option<nat> {
    if expo == i32::MIN || ten_pow(expo_abs(expo)) > u128::MAX {
        None
    } else if expo > 0 {
        if PRECISION * price * ten_pow(expo_abs(expo)) > u256_max() {
            None
        } else {
            Some((PRECISION * price * ten_pow(expo_abs(expo))) as nat)
        }
    } else {
        Some((PRECISION as nat) * price / ten_pow(expo_abs(expo)))
    }
}

/// Whether a Pyth price published at `publish_time` is still valid at `now`, for a window of
/// `valid_sec` seconds; `None` where the window's end leaves 32 bits.
pub open spec fn pyth_fresh(publish_time: i64, valid_sec: u32, now: u64) -> Option<bool> {
    if publish_time <= 0 {
        Some(false)
    } else if (publish_time as u32) + valid_sec > u32::MAX {
        None
    } else {
        Some(((publish_time as u32) + valid_sec) * 1_000_000_000 >= now)
    }
}

/// The rate from the Pyth prices of the base and the rate token read at `now`.
pub open spec fn spec_pyth_rate(o: PythOracle, base: Price, rate: Price, now: u64) -> Result<nat, ExchangeError> {
    if base.price <= 0 {
        Err(ExchangeError::InvalidPythBasePrice)
    } else if rate.price <= 0 {
        Err(ExchangeError::InvalidPythRatePrice)
    } else {
        match pyth_fresh(base.publish_time, o.pyth_price_valid_duration_sec, now) {
            None => Err(ExchangeError::ArithmeticOverflow),
            Some(false) => Err(ExchangeError::PythBasePriceStale),
            Some(true) => match pyth_fresh(rate.publish_time, o.pyth_price_valid_duration_sec, now) {
                None => Err(ExchangeError::ArithmeticOverflow),
                Some(false) => Err(ExchangeError::PythRatePriceStale),
                Some(true) => match (spec_pyth_scaled(base.price as nat, base.expo), spec_pyth_scaled(rate.price as nat, rate.expo)) {
                    (Some(b), Some(r)) => if (PRECISION as nat) * r > u256_max() || b == 0 || (PRECISION as nat) * r / b > u128::MAX {
                        Err(ExchangeError::ArithmeticOverflow)
                    } else {
                        Ok((PRECISION as nat) * r / b)
                    },
                    _ => Err(ExchangeError::ArithmeticOverflow),
                },
            },
        }
    }
}

/// The rate an oracle reply gives for the oracle `e` of token `contract_id` at `now`; a reply
/// of the wrong form cannot be read.
pub open spec fn spec_sfrax_set(e: SfraxExtraInfo, contract_id: Seq<char>, reply: OracleReply, now: u64) -> Result<nat, ExchangeError> {
    match e {
        SfraxExtraInfo::PriceOracle(o) => match reply {
            OracleReply::Prices(d) => spec_price_oracle_rate(o, contract_id, d, now),
            _ => Err(ExchangeError::MalformedRatedPrice),
        },
        SfraxExtraInfo::PythOracle(o) => match reply {
            OracleReply::PythPair(base, rate) => spec_pyth_rate(o, base, rate, now),
            _ => Err(ExchangeError::MalformedRatedPrice),
        },
    }
}

/// `10^e` as a 128-bit number, or `None` where it does not fit.
fn checked_pow10(e: u32) -> (r: Option<u128>)
    ensures
        match r {
            Some(v) => v == ten_pow(e as nat),
            None => ten_pow(e as nat) > u128::MAX,
        },
{
    let mut f: u128 = 1;
    let mut k: u32 = 0;
    while k < e
        invariant
            k <= e,
            f == ten_pow(k as nat),
        decreases e - k,
    {
        match f.checked_mul(10) {
            Some(v) => {
                f = v;
            },
            None => {
                proof {
                    lemma_ten_pow_mono((k + 1) as nat, e as nat);
                }
                return None;
            },
        }
        k = k + 1;
    }
    Some(f)
}

/// A positive Pyth price at `PRECISION`.
pub(crate) fn pyth_scaled(price: i64, expo: i32) -> (r: Option<U256>)
    requires
        price > 0,
    ensures
        match r {
            Some(v) => spec_pyth_scaled(price as nat, expo) == Some(v@),
            None => spec_pyth_scaled(price as nat, expo) is None,
        },
{
    if expo == i32::MIN {
        return None;
    }
    let e: u32 = if expo >= 0 {
        expo as u32
    } else {
        (-expo) as u32
    };
    assert(e == expo_abs(expo));
    let factor = match checked_pow10(e) {
        Some(v) => v,
        None => {
            return None;
        },
    };
    proof {
        assert((price as nat) * 1_000_000_000_000_000_000_000_000 <= u128::MAX * u128::MAX) by (nonlinear_arith)
            requires
                (price as nat) <= u128::MAX,
        ;
        assert(u128::MAX * u128::MAX <= u256_max()) by (nonlinear_arith);
        lemma_ten_pow_mono(0, e as nat);
    }
    let base = U256::from_u128(PRECISION).mul(&U256::from_u128(price as u128));
    if expo > 0 {
        base.checked_mul(&U256::from_u128(factor))
    } else {
        Some(base.div(&U256::from_u128(factor)))
    }
}

/// Whether a Pyth price is still valid at `now`; `None` where the window's end leaves 32 bits.
pub(crate) fn check_fresh(publish_time: i64, valid_sec: u32, now: u64) -> (r: Option<bool>)
    ensures
        r == pyth_fresh(publish_time, valid_sec, now),
{
    if publish_time <= 0 {
        return Some(false);
    }
    let t = publish_time as u32;
    match t.checked_add(valid_sec) {
        Some(end) => Some(to_nano(end) >= now),
        None => None,
    }
}

impl SfraxRate {
    /// A rate of one to one, not yet read, from the oracle `extra_info`.
    pub fn new(contract_id: String, extra_info: SfraxExtraInfo) -> (r: Result<SfraxRate, ExchangeError>)
        ensures
            !extra_info_valid(extra_info) ==> r is Err,
            extra_info_valid(extra_info) ==> (r matches Ok(s) && s.stored_rates == PRECISION && s.rates_updated_at == 0 && s.contract_id == contract_id && s.extra_info == extra_info),
    {
        extra_info.assert_valid()?;
        Ok(SfraxRate { stored_rates: PRECISION, rates_updated_at: 0, contract_id, extra_info })
    }

    /// Replaces the oracle, where the new one is valid.
    pub fn update_extra_info(&mut self, extra_info: SfraxExtraInfo) -> (r: Result<(), ExchangeError>)
        ensures
            !extra_info_valid(extra_info) ==> r is Err && *final(self) == *old(self),
            extra_info_valid(extra_info) ==> r is Ok && final(self).extra_info == extra_info && final(self).stored_rates == old(self).stored_rates && final(self).rates_updated_at == old(self).rates_updated_at && final(self).contract_id == old(self).contract_id,
    {
        extra_info.assert_valid()?;
        self.extra_info = extra_info;
        Ok(())
    }

    /// Whether the rate was read within the last 24 hours.
    pub fn are_actual(&self, now: u64) -> (r: bool)
        ensures
            r == (now <= self.rates_updated_at + EXPIRE_TS),
    {
        (now as u128) <= self.rates_updated_at as u128 + EXPIRE_TS as u128
    }

    /// The stored rate.
    pub fn get(&self) -> (r: u128)
        ensures
            r == self.stored_rates,
    {
        self.stored_rates
    }

    /// When the rate was read.
    pub fn last_update_ts(&self) -> (r: u64)
        ensures
            r == self.rates_updated_at,
    {
        self.rates_updated_at
    }

    /// Stores the rate an oracle reply gives at `now`, and returns it.
    pub fn set(&mut self, reply: &OracleReply, now: u64) -> (r: Result<u128, ExchangeError>)
        ensures
            match spec_sfrax_set(old(self).extra_info, old(self).contract_id@, *reply, now) {
                Ok(v) => r == Ok::<u128, ExchangeError>(v as u128) && final(self).stored_rates == v && final(self).rates_updated_at == now
                    && final(self).contract_id == old(self).contract_id && final(self).extra_info == old(self).extra_info,
                Err(e) => r == Err::<u128, ExchangeError>(e) && *final(self) == *old(self),
            },
    {
        let price = match &self.extra_info {
            SfraxExtraInfo::PriceOracle(o) => match reply {
                OracleReply::Prices(prices) => Self::price_oracle_rate(o, &self.contract_id, prices, now)?,
                _ => {
                    return Err(ExchangeError::MalformedRatedPrice);
                },
            },
            SfraxExtraInfo::PythOracle(o) => match reply {
                OracleReply::PythPair(base, rate) => Self::pyth_rate(o, base, rate, now)?,
                _ => {
                    return Err(ExchangeError::MalformedRatedPrice);
                },
            },
        };
        self.stored_rates = price;
        self.rates_updated_at = now;
        Ok(price)
    }

    /// The rate from the price oracle's batch of prices.
    fn price_oracle_rate(o: &PriceOracle, contract_id: &String, prices: &PriceData, now: u64) -> (r: Result<u128, ExchangeError>)
        ensures
            match spec_price_oracle_rate(*o, contract_id@, *prices, now) {
                Ok(v) => r == Ok::<u128, ExchangeError>(v as u128),
                Err(e) => r == Err::<u128, ExchangeError>(e),
            },
    {
        if prices.recency_duration_sec > o.maximum_recency_duration_sec {
            return Err(ExchangeError::RecencyTooLarge);
        }
        if prices.timestamp > now {
            return Err(ExchangeError::PriceInFuture);
        }
        if now - prices.timestamp > to_nano(o.maximum_staleness_duration_sec) {
            return Err(ExchangeError::PriceTooStale);
        }
        if prices.prices.len() < 2 || prices.prices[0].asset_id != o.base_contract_id || prices.prices[1].asset_id != *contract_id {
            return Err(ExchangeError::PriceAssetMismatch);
        }
        let base_price = match &prices.prices[0].price {
            Some(p) => p,
            None => {
                return Err(ExchangeError::MissingBasePrice);
            },
        };
        let rate_price = match &prices.prices[1].price {
            Some(p) => p,
            None => {
                return Err(ExchangeError::MissingRatePrice);
            },
        };
        if base_price.decimals != rate_price.decimals {
            return Err(ExchangeError::DecimalsInconsistency);
        }
        if base_price.multiplier == 0 {
            return Err(ExchangeError::ArithmeticOverflow);
        }
        proof {
            assert(PRECISION * rate_price.multiplier <= u128::MAX * u128::MAX) by (nonlinear_arith)
                requires
                    rate_price.multiplier <= u128::MAX,
            ;
            assert(u128::MAX * u128::MAX <= u256_max()) by (nonlinear_arith);
        }
        let p = U256::from_u128(PRECISION).mul(&U256::from_u128(rate_price.multiplier)).div(&U256::from_u128(base_price.multiplier));
        match p.to_u128() {
            Some(v) => Ok(v),
            None => Err(ExchangeError::ArithmeticOverflow),
        }
    }

    /// The rate from the Pyth prices of the base and the rate token.
    fn pyth_rate(o: &PythOracle, base: &Price, rate: &Price, now: u64) -> (r: Result<u128, ExchangeError>)
        ensures
            match spec_pyth_rate(*o, *base, *rate, now) {
                Ok(v) => r == Ok::<u128, ExchangeError>(v as u128),
                Err(e) => r == Err::<u128, ExchangeError>(e),
            },
    {
        if base.price <= 0 {
            return Err(ExchangeError::InvalidPythBasePrice);
        }
        if rate.price <= 0 {
            return Err(ExchangeError::InvalidPythRatePrice);
        }
        match check_fresh(base.publish_time, o.pyth_price_valid_duration_sec, now) {
            Some(true) => {},
            Some(false) => {
                return Err(ExchangeError::PythBasePriceStale);
            },
            None => {
                return Err(ExchangeError::ArithmeticOverflow);
            },
        }
        match check_fresh(rate.publish_time, o.pyth_price_valid_duration_sec, now) {
            Some(true) => {},
            Some(false) => {
                return Err(ExchangeError::PythRatePriceStale);
            },
            None => {
                return Err(ExchangeError::ArithmeticOverflow);
            },
        }
        let base_price = match pyth_scaled(base.price, base.expo) {
            Some(v) => v,
            None => {
                return Err(ExchangeError::ArithmeticOverflow);
            },
        };
        let rate_price = match pyth_scaled(rate.price, rate.expo) {
            Some(v) => v,
            None => {
                return Err(ExchangeError::ArithmeticOverflow);
            },
        };
        let num = match U256::from_u128(PRECISION).checked_mul(&rate_price) {
            Some(v) => v,
            None => {
                return Err(ExchangeError::ArithmeticOverflow);
            },
        };
        match num.checked_div(&base_price) {
            Some(q) => match q.to_u128() {
                Some(v) => Ok(v),
                None => Err(ExchangeError::ArithmeticOverflow),
            },
            None => Err(ExchangeError::ArithmeticOverflow),
        }
    }
}

} // verus!
