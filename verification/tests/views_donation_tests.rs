use ref_exchange::account_deposit::Account;
use ref_exchange::contract::Contract;
use ref_exchange::degen_swap::degen::{Degen, DegenType, PythOracleConfig, PythOracleDegen};
use ref_exchange::errors::ExchangeError;
use ref_exchange::event::Event;
use ref_exchange::multi_fungible_token::TokenType;
use ref_exchange::oracle::pyth_oracle::{Price, PriceIdentifier};
use ref_exchange::rated_swap::linear_rate::LinearRate;
use ref_exchange::rated_swap::rate::{
    global_get_rate, global_register_rate, global_set_rate, global_unregister_rate, is_global_rate_valid,
    update_token_rate_callback, Rate,
};
use ref_exchange::utils::TokenCache;
use vstd::hash_map::StringHashMap;

fn exchange() -> String {
    "exchange.near".to_string()
}

fn s(x: &str) -> String {
    x.to_string()
}

fn to_yocto(n: u128) -> u128 {
    n * 10u128.pow(24)
}

fn setup() -> (Contract, Account) {
    let mut c = Contract::new(s("owner.near"), s("boost_farm"), s("burrowland"), 4, 1).unwrap();
    c.add_simple_pool(vec![s("a.near"), s("b.near")], 30, &exchange()).unwrap();
    let mut account = Account::new(&s("alice"));
    account.near_amount = to_yocto(1);
    account.deposit(&s("a.near"), to_yocto(20)).unwrap();
    account.deposit(&s("b.near"), to_yocto(20)).unwrap();
    c.add_liquidity(&mut account, &s("alice"), 0, vec![to_yocto(5), to_yocto(10)], None, 1).unwrap();
    (c, account)
}

#[test]
fn pool_views() {
    let (c, account) = setup();
    assert_eq!(c.get_number_of_pools(), 1);
    assert_eq!(c.get_pool_fee(0), Ok(30));
    assert_eq!(c.get_pool_fee(1), Err(ExchangeError::NoPool));
    assert_eq!(c.get_pool_volumes(0).unwrap().len(), 2);
    assert_eq!(c.get_pool_share_price(0), Err(ExchangeError::Unsupported));
    let total = c.get_pool_total_shares(0).unwrap();
    assert_eq!(c.get_pool_shares(0, &s("alice")), Ok(total));
    assert_eq!(c.get_pool_shares(0, &s("bob")), Ok(0));
    assert_eq!(c.get_deposit(Some(&account), &s("a.near")), to_yocto(15));
    assert_eq!(c.get_deposit(None, &s("a.near")), 0);
    assert_eq!(c.get_whitelisted_tokens(), Vec::<String>::new());
    assert_eq!(c.get_guardians(), Vec::<String>::new());
    assert_eq!(c.get_frozenlist_tokens(), Vec::<String>::new());
    // 102 bytes for the account and 148 for each of its two tokens
    let state = c.get_user_storage_state(Some(&account), 10).unwrap().unwrap();
    assert_eq!(state.deposit, to_yocto(1));
    assert_eq!(state.usage, 3980);
    assert!(c.get_user_storage_state(None, 10).unwrap().is_none());
    let out = c.get_return(0, &s("a.near"), to_yocto(1), &s("b.near"), &exchange(), 0).unwrap();
    assert_eq!(out, 1662497915624478906119726);
}

#[test]
fn pool_infos() {
    let (mut c, _) = setup();
    c.add_stable_swap_pool(&s("owner.near"), vec![s("x"), s("y")], vec![6, 6], 5, 100, &exchange()).unwrap();
    let info = c.get_pool(0, 0).unwrap();
    assert_eq!(info.pool_kind, "SIMPLE_POOL");
    assert_eq!(info.token_account_ids, vec![s("a.near"), s("b.near")]);
    assert_eq!(info.amounts, vec![to_yocto(5), to_yocto(10)]);
    assert_eq!(info.total_fee, 30);
    assert_eq!(info.amp, 0);
    let stable = c.get_pool(1, 0).unwrap();
    assert_eq!(stable.pool_kind, "STABLE_SWAP");
    assert_eq!(stable.amp, 100);
    assert_eq!(stable.amounts, vec![0, 0]);
    assert!(matches!(c.get_pool(2, 0), Err(ExchangeError::NoPool)));
    assert_eq!(c.get_pools(1, 10, 0).unwrap().len(), 1);
    assert_eq!(c.get_pools(5, 10, 0).unwrap().len(), 0);
    assert_eq!(c.get_pool_by_ids(&vec![1, 0], 0).unwrap()[1].pool_kind, "SIMPLE_POOL");
    assert!(matches!(c.get_pool_by_ids(&vec![0, 3], 0), Err(ExchangeError::NoPool)));
}

#[test]
fn liquidity_predictions() {
    let (c, _) = setup();
    let p = c.predict_add_simple_liquidity(0, &vec![to_yocto(1), to_yocto(1)]).unwrap();
    // the pool holds a.near and b.near at one to two; the shares are counted from one less
    // than each amount, and each amount taken is rounded up
    assert_eq!(p.need_amounts, vec![499999999999999999999996, 999999999999999999999991]);
    assert!(p.mint_shares > 0);
    let (c, _) = setup();
    assert!(matches!(c.predict_add_simple_liquidity(4, &vec![1, 1]), Err(ExchangeError::NoPool)));
}

#[test]
fn donations() {
    let (mut c, mut alice) = setup();
    let shares = c.get_pool_shares(0, &s("alice")).unwrap();
    assert!(matches!(c.donation_share(&s("alice"), 0, 0, None, None, &exchange()), Err(ExchangeError::OneYoctoRequired)));
    assert!(matches!(
        c.donation_share(&s("alice"), 1, 0, Some(100), None, &exchange()),
        Ok(Event::DonationShare { account_id, pool_id: 0, amount: 100 }) if account_id == "alice"
    ));
    assert_eq!(c.get_pool_shares(0, &exchange()), Ok(100));
    assert_eq!(c.get_pool_shares(0, &s("alice")), Ok(shares - 100));
    assert!(matches!(c.donation_share(&s("bob"), 1, 0, None, None, &exchange()), Err(ExchangeError::InvalidAmount)));
    let mut owner = Account::new(&s("owner.near"));
    assert!(matches!(
        c.donation_token(&s("alice"), 1, &mut alice, &mut owner, &s("c.near"), None, None),
        Err(ExchangeError::InvalidTokenId)
    ));
    let e = c.donation_token(&s("alice"), 1, &mut alice, &mut owner, &s("a.near"), None, Some(true));
    assert!(matches!(
        e,
        Ok(Event::DonationToken { account_id, token_id, amount }) if account_id == "alice" && token_id == "a.near" && amount == to_yocto(15)
    ));
    assert_eq!(alice.get_balance(&s("a.near")), None);
    assert_eq!(owner.get_balance(&s("a.near")), Some(to_yocto(15)));
}

#[test]
fn registering_tokens() {
    let (c, mut alice) = setup();
    assert_eq!(c.register_tokens(0, &mut alice, &vec![s("c.near")]), Err(ExchangeError::OneYoctoRequired));
    assert_eq!(c.register_tokens(1, &mut alice, &vec![s("c.near")]), Ok(()));
    assert_eq!(alice.get_balance(&s("c.near")), Some(0));
    assert_eq!(c.unregister_tokens(1, &mut alice, &vec![s("a.near")]), Err(ExchangeError::NonZeroTokenBalance));
    assert_eq!(c.unregister_tokens(1, &mut alice, &vec![s("c.near")]), Ok(()));
    assert_eq!(alice.get_balance(&s("c.near")), None);
}

#[test]
fn echo_whitelists() {
    let (mut c, _) = setup();
    c.guardians.push(s("g"));
    let mut list: Vec<String> = Vec::new();
    assert_eq!(c.extend_client_echo_token_id_whitelist(&s("g"), 1, &mut list, vec![s("*x")]), Err(ExchangeError::InvalidWildcard));
    assert_eq!(c.extend_client_echo_token_id_whitelist(&s("g"), 1, &mut list, vec![s("*.x"), s("t")]), Ok(()));
    assert_eq!(list, vec![s("*.x"), s("t")]);
    assert_eq!(c.extend_client_echo_sender_id_whitelist(&s("bob"), 1, &mut list, vec![s("u")]), Err(ExchangeError::NotAllowed));
    // only the owner removes
    assert_eq!(c.remove_client_echo_token_id_whitelist(&s("g"), 1, &mut list, vec![s("t")]), Err(ExchangeError::NotAllowed));
    assert_eq!(c.remove_secure_sender_whitelist(&s("owner.near"), 1, &mut list, vec![s("t")]), Ok(()));
    assert_eq!(list, vec![s("*.x")]);
    assert_eq!(c.remove_client_echo_sender_id_whitelist(&s("owner.near"), 1, &mut list, vec![s("t")]), Err(ExchangeError::NotInWhitelist));
    assert_eq!(c.extend_secure_sender_whitelist(&s("owner.near"), 0, &mut list, vec![s("v")]), Err(ExchangeError::OneYoctoRequired));
}

#[test]
fn token_types() {
    let ex = exchange();
    assert!(matches!(TokenType::parse_token(&s("wrap.near"), &ex), TokenType::Nep141 { token_id } if token_id == "wrap.near"));
    assert!(matches!(TokenType::parse_token(&s(":12"), &ex), TokenType::InnerMFT { pool_id: 12 }));
    assert!(matches!(TokenType::parse_token(&s("exchange.near:3"), &ex), TokenType::InnerMFT { pool_id: 3 }));
    assert!(matches!(
        TokenType::parse_token(&s("other.near:3"), &ex),
        TokenType::OuterMFT { token_contract_id, inner_id: 3 } if token_contract_id == "other.near"
    ));
    assert!(matches!(TokenType::parse_token(&s("other.near:x"), &ex), TokenType::Illegal));
    assert!(matches!(TokenType::parse_token(&s("a:1:2"), &ex), TokenType::Nep141 { token_id } if token_id == "a"));
}

#[test]
fn linear_rates() {
    let mut rates: StringHashMap<Rate> = StringHashMap::new();
    assert_eq!(global_register_rate(&mut rates, &s("BAD"), &s("linear.near")), Err(ExchangeError::InvalidRateType));
    assert_eq!(global_register_rate(&mut rates, &s("STNEAR"), &s("st.near")), Ok(true));
    assert_eq!(global_register_rate(&mut rates, &s("STNEAR"), &s("st.near")), Ok(false));
    let st = global_get_rate(&rates, &s("st.near")).unwrap();
    assert_eq!(st.get(), 10u128.pow(24));
    assert_eq!(st.get_type(), "STNEAR");
    // a stNEAR rate is valid in the epoch it was read in only
    assert!(is_global_rate_valid(&rates, &s("st.near"), 5, 0));
    assert!(!is_global_rate_valid(&rates, &s("st.near"), 5, 1));
    assert_eq!(update_token_rate_callback(&mut rates, &s("st.near"), 1_200_000, 9, 3), Some(1_200_000));
    assert_eq!(global_get_rate(&rates, &s("st.near")).unwrap().last_update_ts(), 3);
    assert!(is_global_rate_valid(&rates, &s("st.near"), 1_000, 3));
    assert_eq!(global_register_rate(&mut rates, &s("LINEAR"), &s("linear.near")), Ok(true));
    assert_eq!(global_register_rate(&mut rates, &s("LINEAR"), &s("linear.near")), Ok(false));
    let r = global_get_rate(&rates, &s("linear.near")).unwrap();
    assert_eq!(r.get(), 10u128.pow(24));
    assert_eq!(r.get_type(), "LINEAR");
    // never read: valid for the first day only
    assert!(is_global_rate_valid(&rates, &s("linear.near"), 86_400_000_000_000, 0));
    assert!(!is_global_rate_valid(&rates, &s("linear.near"), 86_400_000_000_001, 0));
    assert!(is_global_rate_valid(&rates, &s("plain.near"), u64::MAX, 0));
    assert_eq!(update_token_rate_callback(&mut rates, &s("linear.near"), 12345, 7, 1), Some(12345));
    assert_eq!(global_get_rate(&rates, &s("linear.near")).unwrap().last_update_ts(), 7);
    assert_eq!(update_token_rate_callback(&mut rates, &s("plain.near"), 1, 7, 1), None);
    let mut l = LinearRate::new(s("x"));
    assert_eq!(l.set(99, 5), 99);
    global_set_rate(&mut rates, &s("x"), Rate::Linear(l));
    assert_eq!(global_get_rate(&rates, &s("x")).unwrap().get(), 99);
    assert!(global_unregister_rate(&mut rates, &s("x")));
    assert!(!global_unregister_rate(&mut rates, &s("x")));
}

#[test]
fn pyth_degen_prices() {
    let config = PythOracleConfig { oracle_id: s("pyth.near"), expire_ts: 100, pyth_price_valid_duration_sec: 60 };
    let mut d = PythOracleDegen { price_info: None, price_identifier: PriceIdentifier([7u8; 32]) };
    let now = 1_000_000_000_000u64;
    let p = Price { price: 250, conf: 1, expo: -2, publish_time: 990 };
    // 2.5 at 24 decimals
    assert_eq!(d.set_price(&p, &config, now), Ok(25 * 10u128.pow(23)));
    let stale = Price { price: 250, conf: 1, expo: -2, publish_time: 900 };
    assert_eq!(d.set_price(&stale, &config, now), Err(ExchangeError::PythPriceStale));
    let negative = Price { price: -1, conf: 1, expo: 0, publish_time: 990 };
    assert_eq!(d.set_price(&negative, &config, now), Err(ExchangeError::InvalidPythPrice));
    let degen = Degen::PythOracle(d);
    assert_eq!(degen.get_price_info().unwrap().degen_updated_at, now);
    assert_eq!(degen.is_price_valid(100, now + 100), Ok(true));
    assert_eq!(degen.is_price_valid(100, now + 101), Ok(false));
    let fresh = Degen::new(s("t"), DegenType::PriceOracle { decimals: 6 });
    assert_eq!(fresh.is_price_valid(100, 0), Err(ExchangeError::DegenNotPriced));
}

#[test]
fn contract_metadata() {
    let (c, account) = setup();
    let m = c.metadata(s("1.9.0"));
    assert_eq!(m.version, "1.9.0");
    assert_eq!(m.owner, "owner.near");
    assert_eq!(m.boost_farm_id, "boost_farm");
    assert_eq!(m.burrowland_id, "burrowland");
    assert_eq!(m.pool_count, 1);
    assert_eq!(m.admin_fee_bps, 5);
    assert_eq!(m.cumulative_info_record_interval_sec, 720);
    assert!(m.wnear_id.is_none());
    let info = c.get_account_basic_info(Some(&account)).unwrap();
    assert_eq!(info.near_amount, to_yocto(1));
    assert!(c.get_account_basic_info(None).is_none());
}

#[test]
fn token_cache_add_then_sub() {
    let mut cache = TokenCache::new();
    cache.add(&s("t"), 5);
    cache.add(&s("t"), 7);
    assert_eq!(cache.get(&s("t")), 12);
    assert_eq!(cache.sub(&s("t"), 7), Ok(()));
    assert_eq!(cache.get(&s("t")), 5);
    assert_eq!(cache.sub(&s("t"), 6), Err(ExchangeError::NotEnoughTokens));
    assert_eq!(cache.sub(&s("t"), 5), Ok(()));
    assert_eq!(cache.get(&s("t")), 0);
    assert_eq!(cache.sub(&s("u"), 0), Ok(()));
}
