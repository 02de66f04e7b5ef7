use ref_exchange::degen_swap::degen::{
    global_get_degen, global_register_degen, global_register_degen_oracle_config, global_set_degen,
    global_unregister_degen, global_unregister_degen_oracle_config, global_update_degen_oracle_config,
    init_degen_oracle_configs_cache, init_degens_cache, Degen, DegenOracleConfig, DegenType, PriceInfo,
    PriceOracleConfig, PythOracleConfig,
};
use ref_exchange::oracle::pyth_oracle::PriceIdentifier;
use vstd::hash_map::StringHashMap;

fn price_config(expire_ts: u64) -> DegenOracleConfig {
    DegenOracleConfig::PriceOracle(PriceOracleConfig {
        oracle_id: "oracle.near".to_string(),
        expire_ts,
        maximum_recency_duration_sec: 60,
        maximum_staleness_duration_sec: 60,
    })
}

#[test]
fn degen_registry() {
    let mut degens: StringHashMap<Degen> = StringHashMap::new();
    let token = "meme.near".to_string();
    assert!(global_register_degen(&mut degens, &token, DegenType::PriceOracle { decimals: 18 }));
    assert!(!global_register_degen(&mut degens, &token, DegenType::PythOracle { price_identifier: PriceIdentifier([7u8; 32]) }));
    let d = global_get_degen(&degens, &token).unwrap();
    assert_eq!(d.get_type(), "PriceOracle");
    match d {
        Degen::PriceOracle(p) => {
            assert_eq!(p.decimals, 18);
            assert_eq!(p.token_id, token);
            assert!(p.price_info.is_none());
        },
        _ => panic!("wrong kind"),
    }
    let mut d2 = Degen::new(token.clone(), DegenType::PythOracle { price_identifier: PriceIdentifier([7u8; 32]) });
    assert_eq!(d2.get_type(), "PythOracle");
    d2.update_price_info(PriceInfo { stored_degen: 5, degen_updated_at: 9 });
    global_set_degen(&mut degens, &token, d2);
    assert_eq!(global_get_degen(&degens, &token).unwrap().get_type(), "PythOracle");
    assert!(global_unregister_degen(&mut degens, &token));
    assert!(!global_unregister_degen(&mut degens, &token));
    assert!(global_get_degen(&degens, &token).is_none());
}

#[test]
fn degen_oracle_config_registry() {
    let mut configs: StringHashMap<DegenOracleConfig> = StringHashMap::new();
    assert!(!global_update_degen_oracle_config(&mut configs, price_config(1)));
    assert!(global_register_degen_oracle_config(&mut configs, price_config(1)));
    assert!(!global_register_degen_oracle_config(&mut configs, price_config(2)));
    assert!(global_update_degen_oracle_config(&mut configs, price_config(3)));
    match configs.get("PriceOracleConfig") {
        Some(DegenOracleConfig::PriceOracle(c)) => assert_eq!(c.expire_ts, 3),
        _ => panic!("missing config"),
    }
    let pyth = DegenOracleConfig::PythOracle(PythOracleConfig { oracle_id: "pyth.near".to_string(), expire_ts: 1, pyth_price_valid_duration_sec: 60 });
    assert_eq!(pyth.get_key(), "PythOracleConfig");
    assert!(!global_unregister_degen_oracle_config(&mut configs, &"PythOracleConfig".to_string()));
    assert!(global_unregister_degen_oracle_config(&mut configs, &"PriceOracleConfig".to_string()));
    assert!(configs.is_empty());
}

#[test]
fn caches_fill_only_when_empty() {
    let mut cache: StringHashMap<DegenOracleConfig> = StringHashMap::new();
    init_degen_oracle_configs_cache(&mut cache, vec![("PriceOracleConfig".to_string(), price_config(4))]);
    assert_eq!(cache.len(), 1);
    init_degen_oracle_configs_cache(&mut cache, vec![("Other".to_string(), price_config(5))]);
    assert_eq!(cache.len(), 1);
    assert!(!cache.contains_key("Other"));
    let mut degens: StringHashMap<Degen> = StringHashMap::new();
    let d = Degen::new("a.near".to_string(), DegenType::PriceOracle { decimals: 6 });
    init_degens_cache(&mut degens, vec![("a.near".to_string(), d)]);
    assert!(degens.contains_key("a.near"));
}
