//! The registries of degen tokens and of degen oracle settings.
//!
//! Each registry is a map kept by the caller; the functions here decide how a request
//! changes it.
use crate::errors::ExchangeError;
use crate::oracle::pyth_oracle::{Price, PriceIdentifier};
use crate::rated_swap::sfrax_rate::{check_fresh, pyth_fresh, pyth_scaled, spec_pyth_scaled};
use vstd::hash_map::StringHashMap;
use vstd::prelude::*;
use vstd::string::*;

verus! {

/// Key of the price oracle settings.
pub open spec fn price_oracle_config_key() -> Seq<char> {
    "PriceOracleConfig"@
}

/// Key of the Pyth oracle settings.
pub open spec fn pyth_oracle_config_key() -> Seq<char> {
    "PythOracleConfig"@
}

/// Settings for degen prices read from the price oracle.
#[derive(Clone, Debug)]
pub struct PriceOracleConfig {
    pub oracle_id: String,
    pub expire_ts: u64,
    /// The maximum number of seconds expected from the oracle price call.
    pub maximum_recency_duration_sec: u32,
    /// Maximum staleness duration of the price data timestamp.
    pub maximum_staleness_duration_sec: u32,
}

/// Settings for degen prices read from Pyth.
#[derive(Clone, Debug)]
pub struct PythOracleConfig {
    pub oracle_id: String,
    pub expire_ts: u64,
    /// The valid duration to pyth price in seconds.
    pub pyth_price_valid_duration_sec: u32,
}

/// The settings of one oracle.
#[derive(Clone, Debug)]
pub enum DegenOracleConfig {
    PriceOracle(PriceOracleConfig),
    PythOracle(PythOracleConfig),
}

/// A price and when it was read.
#[derive(Clone, Copy, Debug)]
pub struct PriceInfo {
    pub stored_degen: u128,
    pub degen_updated_at: u64,
}

/// A degen token priced by the price oracle.
#[derive(Clone, Debug)]
pub struct PriceOracleDegen {
    pub price_info: Option<PriceInfo>,
    pub token_id: String,
    pub decimals: u8,
}

/// A degen token priced by Pyth.
#[derive(Clone, Debug)]
pub struct PythOracleDegen {
    pub price_info: Option<PriceInfo>,
    pub price_identifier: PriceIdentifier,
}

/// A degen token, by the oracle that prices it.
#[derive(Clone, Debug)]
pub enum Degen {
    PriceOracle(PriceOracleDegen),
    PythOracle(PythOracleDegen),
}

/// How a degen token is to be priced.
#[derive(Clone, Debug)]
pub enum DegenType {
    PriceOracle { decimals: u8 },
    PythOracle { price_identifier: PriceIdentifier },
}

/// The key a setting is registered under.
pub open spec fn config_key(c: DegenOracleConfig) -> Seq<char> {
    match c {
        DegenOracleConfig::PriceOracle(_) => price_oracle_config_key(),
        DegenOracleConfig::PythOracle(_) => pyth_oracle_config_key(),
    }
}

impl DegenOracleConfig {
    /// The key the setting is registered under.
    pub fn get_key(&self) -> (r: String)
        ensures
            r@ == config_key(*self),
    {
        match self {
            DegenOracleConfig::PriceOracle(_) => String::from_str("PriceOracleConfig"),
            DegenOracleConfig::PythOracle(_) => String::from_str("PythOracleConfig"),
        }
    }
}

/// A new degen token of the given kind, not yet priced.
pub open spec fn new_degen(token_id: String, degen_type: DegenType) -> Degen {
    match degen_type {
        DegenType::PriceOracle { decimals } => Degen::PriceOracle(PriceOracleDegen { price_info: None, token_id, decimals }),
        DegenType::PythOracle { price_identifier } => Degen::PythOracle(PythOracleDegen { price_info: None, price_identifier }),
    }
}

impl Degen {
    /// A new degen token of the given kind, not yet priced.
    pub fn new(token_id: String, degen_type: DegenType) -> (r: Degen)
        ensures
            r == new_degen(token_id, degen_type),
    {
        match degen_type {
            DegenType::PriceOracle { decimals } => Degen::PriceOracle(PriceOracleDegen { price_info: None, token_id, decimals }),
            DegenType::PythOracle { price_identifier } => Degen::PythOracle(PythOracleDegen { price_info: None, price_identifier }),
        }
    }

    /// The name of the oracle kind.
    pub fn get_type(&self) -> (r: String)
        ensures
            r@ == match *self {
                Degen::PriceOracle(_) => "PriceOracle"@,
                Degen::PythOracle(_) => "PythOracle"@,
            },
    {
        match self {
            Degen::PriceOracle(_) => String::from_str("PriceOracle"),
            Degen::PythOracle(_) => String::from_str("PythOracle"),
        }
    }

    /// Records a new price.
    pub fn update_price_info(&mut self, price_info: PriceInfo)
        ensures
            match (*old(self), *final(self)) {
                (Degen::PriceOracle(o), Degen::PriceOracle(d)) => d.price_info == Some(price_info) && d.token_id == o.token_id && d.decimals == o.decimals,
                (Degen::PythOracle(o), Degen::PythOracle(d)) => d.price_info == Some(price_info) && d.price_identifier == o.price_identifier,
                _ => false,
            },
    {
        match self {
            Degen::PriceOracle(d) => {
                d.price_info = Some(price_info);
            },
            Degen::PythOracle(d) => {
                d.price_info = Some(price_info);
            },
        }
    }
}

/// The degen price a Pyth price gives at `now`: positive, published within the window, and
/// scaled to `PRECISION`.
pub open spec fn spec_pyth_degen_price(price: Price, valid_sec: u32, now: u64) -> Result<nat, ExchangeError> {
    if price.price <= 0 {
        Err(ExchangeError::InvalidPythPrice)
    } else {
        match pyth_fresh(price.publish_time, valid_sec, now) {
            None => Err(ExchangeError::ArithmeticOverflow),
            Some(false) => Err(ExchangeError::PythPriceStale),
            Some(true) => match spec_pyth_scaled(price.price as nat, price.expo) {
                Some(v) => if v <= u128::MAX {
                    Ok(v)
                } else {
                    Err(ExchangeError::ArithmeticOverflow)
                },
                None => Err(ExchangeError::ArithmeticOverflow),
            },
        }
    }
}

impl PythOracleDegen {
    /// Takes the Pyth price read at `now` as the token's price, and returns it.
    pub fn set_price(&mut self, price: &Price, config: &PythOracleConfig, now: u64) -> (r: Result<u128, ExchangeError>)
        ensures
            match spec_pyth_degen_price(*price, config.pyth_price_valid_duration_sec, now) {
                Ok(v) => r == Ok::<u128, ExchangeError>(v as u128)
                    && final(self).price_info == Some(PriceInfo { stored_degen: v as u128, degen_updated_at: now }),
                Err(e) => r == Err::<u128, ExchangeError>(e) && final(self).price_info == old(self).price_info,
            },
            final(self).price_identifier == old(self).price_identifier,
    {
        if price.price <= 0 {
            return Err(ExchangeError::InvalidPythPrice);
        }
        match check_fresh(price.publish_time, config.pyth_price_valid_duration_sec, now) {
            Some(true) => {},
            Some(false) => {
                return Err(ExchangeError::PythPriceStale);
            },
            None => {
                return Err(ExchangeError::ArithmeticOverflow);
            },
        }
        let scaled = match pyth_scaled(price.price, price.expo) {
            Some(v) => v,
            None => {
                return Err(ExchangeError::ArithmeticOverflow);
            },
        };
        let p = match scaled.to_u128() {
            Some(v) => v,
            None => {
                return Err(ExchangeError::ArithmeticOverflow);
            },
        };
        self.price_info = Some(PriceInfo { stored_degen: p, degen_updated_at: now });
        Ok(p)
    }
}

impl Degen {
    /// The price last read; refused where none was read yet.
    pub fn get_price_info(&self) -> (r: Result<PriceInfo, ExchangeError>)
        ensures
            r == match self.get_price_info_spec() {
                Some(p) => Ok::<PriceInfo, ExchangeError>(p),
                None => Err::<PriceInfo, ExchangeError>(ExchangeError::DegenNotPriced),
            },
    {
        let info = match self {
            Degen::PriceOracle(d) => d.price_info,
            Degen::PythOracle(d) => d.price_info,
        };
        match info {
            Some(p) => Ok(p),
            None => Err(ExchangeError::DegenNotPriced),
        }
    }

    /// Whether the price last read is still valid at `now`, for prices that expire
    /// `expire_ts` nanoseconds after they are read; refused where none was read yet.
    pub fn is_price_valid(&self, expire_ts: u64, now: u64) -> (r: Result<bool, ExchangeError>)
        ensures
            match self.get_price_info_spec() {
                Some(p) => r == Ok::<bool, ExchangeError>(now <= p.degen_updated_at + expire_ts),
                None => r == Err::<bool, ExchangeError>(ExchangeError::DegenNotPriced),
            },
    {
        let info = self.get_price_info()?;
        Ok((now as u128) <= info.degen_updated_at as u128 + expire_ts as u128)
    }

    /// The price last read, if any.
    pub open spec fn get_price_info_spec(&self) -> Option<PriceInfo> {
        match *self {
            Degen::PriceOracle(d) => d.price_info,
            Degen::PythOracle(d) => d.price_info,
        }
    }
}

/// The map of a list of entries, later entries replacing earlier ones of the same key.
pub open spec fn entries_map<V>(entries: Seq<(String, V)>) -> Map<Seq<char>, V>
    decreases entries.len(),
{
    if entries.len() == 0 {
        Map::empty()
    } else {
        entries_map(entries.drop_last()).insert(entries.last().0@, entries.last().1)
    }
}

/// Fills an empty cache from the stored entries; a filled cache stays as it is.
fn fill_cache<V>(cache: &mut StringHashMap<V>, stored: Vec<(String, V)>)
    ensures
        old(cache)@.is_empty() ==> final(cache)@ == entries_map(stored@),
        !old(cache)@.is_empty() ==> final(cache)@ == old(cache)@,
{
    if !cache.is_empty() {
        return;
    }
    let ghost all = stored@;
    let mut rest = stored;
    let ghost mut k: int = 0;
    assert(cache@ =~= entries_map(all.subrange(0, 0)));
    while rest.len() > 0
        invariant
            0 <= k <= all.len(),
            rest@ == all.subrange(k, all.len() as int),
            cache@ == entries_map(all.subrange(0, k)),
        decreases rest.len(),
    {
        let e = rest.remove(0);
        proof {
            assert(all.subrange(0, k + 1).drop_last() =~= all.subrange(0, k));
            assert(all.subrange(0, k + 1).last() == e);
            k = k + 1;
            assert(rest@ =~= all.subrange(k, all.len() as int));
        }
        cache.insert(e.0, e.1);
    }
    assert(all.subrange(0, all.len() as int) =~= all);
}

/// Fills the degen cache from storage when it is empty.
pub fn init_degens_cache(cache: &mut StringHashMap<Degen>, stored: Vec<(String, Degen)>)
    ensures
        old(cache)@.is_empty() ==> final(cache)@ == entries_map(stored@),
        !old(cache)@.is_empty() ==> final(cache)@ == old(cache)@,
{
    fill_cache(cache, stored)
}

/// Fills the oracle settings cache from storage when it is empty.
pub fn init_degen_oracle_configs_cache(cache: &mut StringHashMap<DegenOracleConfig>, stored: Vec<(String, DegenOracleConfig)>)
    ensures
        old(cache)@.is_empty() ==> final(cache)@ == entries_map(stored@),
        !old(cache)@.is_empty() ==> final(cache)@ == old(cache)@,
{
    fill_cache(cache, stored)
}

/// Registers a degen token; `false`, and no change, where it is registered already.
pub fn global_register_degen(degens: &mut StringHashMap<Degen>, token_id: &String, degen_type: DegenType) -> (r: bool)
    ensures
        r == !old(degens)@.contains_key(token_id@),
        r ==> final(degens)@ == old(degens)@.insert(token_id@, new_degen(*token_id, degen_type)),
        !r ==> final(degens)@ == old(degens)@,
{
    if !degens.contains_key(token_id.as_str()) {
        let id = token_id.clone();
        let d = Degen::new(token_id.clone(), degen_type);
        degens.insert(id, d);
        true
    } else {
        false
    }
}

/// Registers an oracle's settings; `false`, and no change, where settings of that oracle
/// are registered already.
pub fn global_register_degen_oracle_config(configs: &mut StringHashMap<DegenOracleConfig>, config: DegenOracleConfig) -> (r: bool)
    ensures
        r == !old(configs)@.contains_key(config_key(config)),
        r ==> final(configs)@ == old(configs)@.insert(config_key(config), config),
        !r ==> final(configs)@ == old(configs)@,
{
    let config_key = config.get_key();
    if !configs.contains_key(config_key.as_str()) {
        configs.insert(config_key, config);
        true
    } else {
        false
    }
}

/// Unregisters a degen token; `false`, and no change, where it is not registered.
pub fn global_unregister_degen(degens: &mut StringHashMap<Degen>, token_id: &String) -> (r: bool)
    ensures
        r == old(degens)@.contains_key(token_id@),
        final(degens)@ == old(degens)@.remove(token_id@),
{
    if degens.contains_key(token_id.as_str()) {
        degens.remove(token_id.as_str());
        true
    } else {
        assert(degens@ =~= degens@.remove(token_id@));
        false
    }
}

/// Unregisters an oracle's settings; `false`, and no change, where they are not registered.
pub fn global_unregister_degen_oracle_config(configs: &mut StringHashMap<DegenOracleConfig>, config_key: &String) -> (r: bool)
    ensures
        r == old(configs)@.contains_key(config_key@),
        final(configs)@ == old(configs)@.remove(config_key@),
{
    if configs.contains_key(config_key.as_str()) {
        configs.remove(config_key.as_str());
        true
    } else {
        assert(configs@ =~= configs@.remove(config_key@));
        false
    }
}

/// Replaces an oracle's settings; `false`, and no change, where none are registered.
pub fn global_update_degen_oracle_config(configs: &mut StringHashMap<DegenOracleConfig>, config: DegenOracleConfig) -> (r: bool)
    ensures
        r == old(configs)@.contains_key(config_key(config)),
        r ==> final(configs)@ == old(configs)@.insert(config_key(config), config),
        !r ==> final(configs)@ == old(configs)@,
{
    let config_key = config.get_key();
    if configs.contains_key(config_key.as_str()) {
        configs.insert(config_key, config);
        true
    } else {
        false
    }
}

/// The registered degen token, if any.
pub fn global_get_degen<'a>(degens: &'a StringHashMap<Degen>, token_id: &String) -> (r: Option<&'a Degen>)
    ensures
        match r {
            Some(d) => degens@.contains_key(token_id@) && *d == degens@[token_id@],
            None => !degens@.contains_key(token_id@),
        },
{
    degens.get(token_id.as_str())
}

/// Records a degen token.
pub fn global_set_degen(degens: &mut StringHashMap<Degen>, token_id: &String, degen: Degen)
    ensures
        final(degens)@ == old(degens)@.insert(token_id@, degen),
{
    degens.insert(token_id.clone(), degen);
}

} // verus!
