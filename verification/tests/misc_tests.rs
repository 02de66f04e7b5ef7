use ref_exchange::errors::ExchangeError;
use ref_exchange::event::RunningState;
use ref_exchange::multi_fungible_token::{parse_token_id, try_identify_pool_id, TokenOrPool};
use ref_exchange::pool_limit_info::{DegenPoolLimitInfo, VDegenPoolLimitInfo, VPoolLimitInfo};
use ref_exchange::shadow_actions::{pool_id_to_shadow_id, shadow_id_to_pool_id};
use ref_exchange::swap_volume::{internal_get_swap_volume_u256_vec_or_default, internal_set_swap_volume_u256_vec, internal_update_swap_volume_u256_vec, SwapVolumeU256};
use ref_exchange::u256::U256;
use ref_exchange::utils::{is_paired_rated_price, pair_rated_price_to_vec_u8, unpair_rated_price_from_vec_u8, SwapVolume};
use vstd::hash_map::HashMapWithView;

#[test]
fn pool_ids_in_token_ids() {
    assert_eq!(try_identify_pool_id(&":12".to_string()), Ok(12));
    assert_eq!(try_identify_pool_id(&":+7".to_string()), Ok(7));
    assert_eq!(try_identify_pool_id(&":".to_string()), Err(ExchangeError::IllegalPoolId));
    assert_eq!(try_identify_pool_id(&":1a".to_string()), Err(ExchangeError::IllegalPoolId));
    assert_eq!(try_identify_pool_id(&"12".to_string()), Err(ExchangeError::IllegalPoolId));
    assert!(matches!(parse_token_id(":3".to_string()), TokenOrPool::Pool(3)));
    match parse_token_id("wrap.near".to_string()) {
        TokenOrPool::Token(t) => assert_eq!(t, "wrap.near"),
        _ => panic!("a token"),
    }
}

#[test]
fn shadow_ids_round_trip() {
    let id = pool_id_to_shadow_id(42);
    assert_eq!(id, "shadow_ref_v1-42");
    assert_eq!(shadow_id_to_pool_id(&id), Ok(42));
    assert_eq!(shadow_id_to_pool_id(&"shadow_ref_v1-x".to_string()), Err(ExchangeError::IllegalPoolId));
}

#[test]
fn rated_prices_pair_round_trip() {
    let paired = pair_rated_price_to_vec_u8(vec![1, 2, 3], vec![9, 8]);
    assert_eq!(unpair_rated_price_from_vec_u8(&paired), (vec![1, 2, 3], vec![9, 8]));
    let empty = pair_rated_price_to_vec_u8(vec![], vec![]);
    assert_eq!(unpair_rated_price_from_vec_u8(&empty), (vec![], vec![]));
}

#[test]
fn paired_rated_price_shape() {
    let w = usize::BITS as usize / 8;
    let paired = pair_rated_price_to_vec_u8(vec![1, 2, 3], vec![9, 8]);
    assert!(is_paired_rated_price(&paired));
    assert!(!is_paired_rated_price(&vec![0u8; w - 1]));
    // a head of zero points before the end of the head itself
    assert!(!is_paired_rated_price(&vec![0u8; w + 2]));
    // a head past the end
    let mut too_far = vec![0u8; w];
    too_far[w - 1] = (w + 3) as u8;
    assert!(!is_paired_rated_price(&too_far));
    too_far.extend_from_slice(&[5, 6, 7]);
    assert!(is_paired_rated_price(&too_far));
    assert_eq!(unpair_rated_price_from_vec_u8(&too_far), (vec![5, 6, 7], vec![]));
}

#[test]
fn pool_limits() {
    let l = VPoolLimitInfo::DegenPoolLimit(VDegenPoolLimitInfo::from_current(DegenPoolLimitInfo { tvl_limit: 77 }));
    assert_eq!(l.get_degen_pool_limit().tvl_limit, 77);
    assert_eq!(RunningState::Running.as_str(), "Running");
    assert_eq!(RunningState::Paused.as_str(), "Paused");
}

#[test]
fn swap_volumes_are_kept_per_pool() {
    let mut store: HashMapWithView<u32, Vec<SwapVolumeU256>> = HashMapWithView::new();
    let svs = vec![SwapVolume { input: 5, output: 6 }, SwapVolume { input: 7, output: 8 }];
    let v = internal_get_swap_volume_u256_vec_or_default(&store, 3, &svs);
    assert_eq!(v[1].input.as_u128(), 7);
    internal_update_swap_volume_u256_vec(&mut store, 3, 0, 1, 10, 20, v).unwrap();
    let v = internal_get_swap_volume_u256_vec_or_default(&store, 3, &svs);
    assert_eq!(v[0].input.as_u128(), 15);
    assert_eq!(v[1].output.as_u128(), 28);
    internal_set_swap_volume_u256_vec(&mut store, 3, vec![SwapVolumeU256 { input: U256::max_value(), output: U256::zero() }]);
    let v = internal_get_swap_volume_u256_vec_or_default(&store, 3, &svs);
    assert_eq!(
        internal_update_swap_volume_u256_vec(&mut store, 3, 0, 0, 1, 0, v),
        Err(ExchangeError::VolumeOverflow { pool_id: 3, index: 0, input: true })
    );
    internal_set_swap_volume_u256_vec(&mut store, 3, vec![SwapVolumeU256 { input: U256::zero(), output: U256::max_value() }]);
    let v = internal_get_swap_volume_u256_vec_or_default(&store, 3, &svs);
    assert_eq!(
        internal_update_swap_volume_u256_vec(&mut store, 3, 0, 0, 1, 1, v),
        Err(ExchangeError::VolumeOverflow { pool_id: 3, index: 0, input: false })
    );
}
