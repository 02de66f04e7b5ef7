use ref_exchange::errors::ExchangeError;
use ref_exchange::oracle::price_oracle::{AssetOptionalPrice, Price as OraclePrice, PriceData};
use ref_exchange::oracle::pyth_oracle::{Price as PythPrice, PriceIdentifier};
use ref_exchange::rated_swap::rates::{Rates, StnearRates};
use ref_exchange::rated_swap::sfrax_rate::{OracleReply, PriceOracle, PythOracle, SfraxExtraInfo, SfraxRate};
use ref_exchange::rated_swap::PRECISION;

fn ident(start: u8) -> PriceIdentifier {
    let mut b = [0u8; 32];
    for i in 0..32 {
        b[i] = start.wrapping_add(i as u8);
    }
    PriceIdentifier(b)
}

#[test]
fn price_identifier_hex_round_trip() {
    let id = ident(0);
    let text = id.to_string();
    assert_eq!(text, "000102030405060708090a0b0c0d0e0f101112131415161718191a1b1c1d1e1f");
    assert_eq!(PriceIdentifier::from_hex(&text), Ok(id));
    let id2 = ident(0xf0);
    assert_eq!(PriceIdentifier::from_hex(&id2.to_string()), Ok(id2));
    // upper case is read too
    assert_eq!(PriceIdentifier::from_hex(&text.to_uppercase()), Ok(id));
}

#[test]
fn price_identifier_refuses_bad_text() {
    assert_eq!(PriceIdentifier::from_hex(&"00".repeat(31)), Err(ExchangeError::PriceIdentifierLength));
    let mut bad = "00".repeat(32);
    bad.replace_range(10..11, "g");
    assert_eq!(PriceIdentifier::from_hex(&bad), Err(ExchangeError::PriceIdentifierHex));
}

fn price_oracle_info() -> PriceOracle {
    PriceOracle {
        oracle_id: "oracle.near".to_string(),
        base_contract_id: "frax.near".to_string(),
        maximum_recency_duration_sec: 60,
        maximum_staleness_duration_sec: 60,
    }
}

fn data(ts: u64, recency: u32, base: Option<(u128, u8)>, rate: Option<(u128, u8)>) -> PriceData {
    PriceData {
        timestamp: ts,
        recency_duration_sec: recency,
        prices: vec![
            AssetOptionalPrice { asset_id: "frax.near".to_string(), price: base.map(|(m, d)| OraclePrice { multiplier: m, decimals: d }) },
            AssetOptionalPrice { asset_id: "sfrax.near".to_string(), price: rate.map(|(m, d)| OraclePrice { multiplier: m, decimals: d }) },
        ],
    }
}

#[test]
fn sfrax_rate_from_price_oracle() {
    let mut rate = SfraxRate::new("sfrax.near".to_string(), SfraxExtraInfo::PriceOracle(price_oracle_info())).unwrap();
    assert_eq!(rate.get(), PRECISION);
    let now = 110_000_000_000u64;
    let reply = OracleReply::Prices(data(100_000_000_000, 10, Some((10000, 4)), Some((10500, 4))));
    assert_eq!(rate.set(&reply, now), Ok(1_050_000_000_000_000_000_000_000));
    assert_eq!(rate.stored_rates, 1_050_000_000_000_000_000_000_000);
    assert_eq!(rate.last_update_ts(), now);
    assert!(rate.are_actual(now + 86_400_000_000_000));
    assert!(!rate.are_actual(now + 86_400_000_000_001));
}

#[test]
fn sfrax_rate_price_oracle_refusals() {
    let mut rate = SfraxRate::new("sfrax.near".to_string(), SfraxExtraInfo::PriceOracle(price_oracle_info())).unwrap();
    let now = 110_000_000_000u64;
    let cases = vec![
        (data(100_000_000_000, 61, Some((1, 4)), Some((1, 4))), ExchangeError::RecencyTooLarge),
        (data(120_000_000_000, 10, Some((1, 4)), Some((1, 4))), ExchangeError::PriceInFuture),
        (data(49_000_000_000, 10, Some((1, 4)), Some((1, 4))), ExchangeError::PriceTooStale),
        (data(100_000_000_000, 10, None, Some((1, 4))), ExchangeError::MissingBasePrice),
        (data(100_000_000_000, 10, Some((1, 4)), None), ExchangeError::MissingRatePrice),
        (data(100_000_000_000, 10, Some((1, 4)), Some((1, 6))), ExchangeError::DecimalsInconsistency),
        (data(100_000_000_000, 10, Some((0, 4)), Some((1, 4))), ExchangeError::ArithmeticOverflow),
    ];
    for (d, e) in cases {
        assert_eq!(rate.set(&OracleReply::Prices(d), now), Err(e));
        assert_eq!(rate.get(), PRECISION);
    }
    let mut swapped = data(100_000_000_000, 10, Some((1, 4)), Some((1, 4)));
    swapped.prices.swap(0, 1);
    assert_eq!(rate.set(&OracleReply::Prices(swapped), now), Err(ExchangeError::PriceAssetMismatch));
    assert_eq!(rate.set(&OracleReply::Malformed, now), Err(ExchangeError::MalformedRatedPrice));
}

fn pyth_info() -> PythOracle {
    PythOracle {
        oracle_id: "pyth.near".to_string(),
        base_price_identifier: ident(1),
        rate_price_identifier: ident(2),
        pyth_price_valid_duration_sec: 60,
    }
}

fn pyth(price: i64, expo: i32, publish_time: i64) -> PythPrice {
    PythPrice { price, conf: 0, expo, publish_time }
}

#[test]
fn sfrax_rate_from_pyth() {
    let mut rate = SfraxRate::new("sfrax.near".to_string(), SfraxExtraInfo::PythOracle(pyth_info())).unwrap();
    let now = 1_010_000_000_000u64;
    let reply = OracleReply::PythPair(pyth(100_000_000, -8, 1000), pyth(105_000_000, -8, 1000));
    assert_eq!(rate.set(&reply, now), Ok(1_050_000_000_000_000_000_000_000));
    // positive exponents multiply: (5 * 10) / (2 * 10)
    let reply = OracleReply::PythPair(pyth(2, 1, 1000), pyth(5, 1, 1000));
    assert_eq!(rate.set(&reply, now), Ok(2_500_000_000_000_000_000_000_000));
}

#[test]
fn sfrax_rate_pyth_refusals() {
    let mut rate = SfraxRate::new("sfrax.near".to_string(), SfraxExtraInfo::PythOracle(pyth_info())).unwrap();
    let now = 1_061_000_000_000u64;
    assert_eq!(rate.set(&OracleReply::PythPair(pyth(1, -8, 1000), pyth(1, -8, 1100)), now), Err(ExchangeError::PythBasePriceStale));
    assert_eq!(rate.set(&OracleReply::PythPair(pyth(1, -8, 1100), pyth(1, -8, 1000)), now), Err(ExchangeError::PythRatePriceStale));
    assert_eq!(rate.set(&OracleReply::PythPair(pyth(0, -8, 1100), pyth(1, -8, 1100)), now), Err(ExchangeError::InvalidPythBasePrice));
    assert_eq!(rate.set(&OracleReply::PythPair(pyth(1, -8, 1100), pyth(-1, -8, 1100)), now), Err(ExchangeError::InvalidPythRatePrice));
    assert_eq!(rate.set(&OracleReply::PythPair(pyth(1, -8, 0), pyth(1, -8, 1100)), now), Err(ExchangeError::PythBasePriceStale));
    // the base price rounds down to nothing
    assert_eq!(rate.set(&OracleReply::PythPair(pyth(1, -30, 1100), pyth(1, -8, 1100)), now), Err(ExchangeError::ArithmeticOverflow));
    assert_eq!(rate.set(&OracleReply::Prices(data(0, 0, None, None)), now), Err(ExchangeError::MalformedRatedPrice));
    assert_eq!(rate.get(), PRECISION);
}

#[test]
fn sfrax_extra_info_is_checked() {
    let mut o = price_oracle_info();
    o.maximum_staleness_duration_sec = 9;
    assert_eq!(SfraxExtraInfo::PriceOracle(o.clone()).assert_valid(), Err(ExchangeError::InvalidStalenessDuration));
    o.maximum_staleness_duration_sec = 301;
    assert!(SfraxRate::new("s".to_string(), SfraxExtraInfo::PriceOracle(o)).is_err());
    let mut p = pyth_info();
    p.pyth_price_valid_duration_sec = 300;
    assert!(SfraxExtraInfo::PythOracle(p.clone()).assert_valid().is_ok());
    p.pyth_price_valid_duration_sec = 5;
    assert_eq!(SfraxExtraInfo::PythOracle(p.clone()).assert_valid(), Err(ExchangeError::InvalidPythDuration));
    let mut rate = SfraxRate::new("s".to_string(), SfraxExtraInfo::PythOracle(pyth_info())).unwrap();
    assert_eq!(rate.update_extra_info(SfraxExtraInfo::PythOracle(p)), Err(ExchangeError::InvalidPythDuration));
    assert!(rate.update_extra_info(SfraxExtraInfo::PriceOracle(price_oracle_info())).is_ok());
}

#[test]
fn stnear_rates() {
    let rates = Rates::new(&"STNEAR".to_string(), "meta.near".to_string(), 2).unwrap();
    assert_eq!(rates.get(), &vec![PRECISION, PRECISION]);
    assert!(matches!(Rates::new(&"OTHER".to_string(), "x".to_string(), 2), Err(ExchangeError::Unsupported)));
    let mut s = StnearRates::new("meta.near".to_string(), 2);
    assert!(!s.is_current(7));
    assert!(s.rates_callback(1_100_000_000_000_000_000_000_000, 7));
    assert_eq!(s.stored_rates, vec![1_100_000_000_000_000_000_000_000, PRECISION]);
    assert!(s.is_current(7));
}
