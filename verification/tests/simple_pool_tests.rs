use ref_exchange::errors::ExchangeError;
use ref_exchange::simple_pool::SimplePool;
use ref_exchange::utils::INIT_SHARES_SUPPLY;

fn acc(i: usize) -> String {
    ["alice", "bob", "charlie", "danny", "eugene", "fargo"][i].to_string()
}

fn to_yocto(near: u128) -> u128 {
    near * 10u128.pow(24)
}

#[test]
fn test_pool_swap() {
    let one_near = 10u128.pow(24);
    let mut pool = SimplePool::new(0, vec![acc(1), acc(2)], 30, 0, 0).unwrap();
    let mut amounts = vec![to_yocto(5), to_yocto(10)];
    let num_shares = pool.add_liquidity(&acc(0), &mut amounts).unwrap();
    assert_eq!(amounts, vec![to_yocto(5), to_yocto(10)]);
    assert_eq!(pool.share_balance_of(&acc(0)), INIT_SHARES_SUPPLY);
    let out = pool.swap(&acc(1), one_near, &acc(2), 1, &acc(3), &None).unwrap();
    assert_eq!(pool.share_balance_of(&acc(0)), INIT_SHARES_SUPPLY);
    pool.share_register(&acc(1)).unwrap();
    pool.share_transfer(&acc(0), &acc(1), INIT_SHARES_SUPPLY / 2).unwrap();
    assert_eq!(pool.share_balance_of(&acc(0)), INIT_SHARES_SUPPLY / 2);
    assert_eq!(pool.share_balance_of(&acc(1)), INIT_SHARES_SUPPLY / 2);
    assert_eq!(
        pool.remove_liquidity(&acc(0), num_shares / 2, vec![1, 1]).unwrap(),
        vec![3 * one_near, 5 * one_near - out / 2]
    );
}

#[test]
fn test_pool_swap_with_fees() {
    let mut pool = SimplePool::new(0, vec![acc(1), acc(2)], 100, 100, 0).unwrap();
    let mut amounts = vec![to_yocto(5), to_yocto(10)];
    let num_shares = pool.add_liquidity(&acc(0), &mut amounts).unwrap();
    assert_eq!(amounts, vec![to_yocto(5), to_yocto(10)]);
    assert_eq!(pool.share_balance_of(&acc(0)), INIT_SHARES_SUPPLY);
    let out = pool.swap(&acc(1), 10u128.pow(24), &acc(2), 1, &acc(3), &None).unwrap();
    assert_eq!(pool.share_balance_of(&acc(0)), INIT_SHARES_SUPPLY);
    let liq1 = pool.remove_liquidity(&acc(0), num_shares, vec![1, 1]).unwrap();
    let num_shares2 = pool.share_balance_of(&acc(3));
    let liq2 = pool.remove_liquidity(&acc(3), num_shares2, vec![1, 1]).unwrap();
    assert_eq!(liq1[0] + liq2[0], to_yocto(6));
    assert_eq!(liq1[1] + liq2[1], to_yocto(10) - out);
}

#[test]
fn test_rounding() {
    let mut pool = SimplePool::new(0, vec![acc(0), acc(1)], 30, 5, 1).unwrap();
    pool.amounts = vec![367701466208080431008668441, 2267116519548219219535];
    pool.shares_total_supply = 35967818779820559673547466;
    let mut amounts = vec![145782, 1];
    let r = pool.add_liquidity(&acc(2), &mut amounts);
    assert_eq!(r, Err(ExchangeError::ZeroAmount));
    assert_eq!(r.unwrap_err().message(), "E31: adding zero amount");
}

#[test]
fn pool_creation_is_checked() {
    assert!(matches!(SimplePool::new(0, vec![acc(1), acc(2)], 10_000, 0, 0), Err(ExchangeError::FeeTooLarge)));
    assert!(matches!(SimplePool::new(0, vec![acc(1), acc(2)], 30, 20, 20), Err(ExchangeError::FeeTooLarge)));
    assert!(matches!(SimplePool::new(0, vec![acc(1)], 30, 0, 0), Err(ExchangeError::NotEnoughPoolTokens)));
    assert!(matches!(SimplePool::new(0, vec![acc(1), acc(2), acc(3)], 30, 0, 0), Err(ExchangeError::TooManyTokens)));
}

#[test]
fn swap_errors() {
    let mut pool = SimplePool::new(0, vec![acc(1), acc(2)], 30, 0, 0).unwrap();
    let mut amounts = vec![to_yocto(5), to_yocto(10)];
    pool.add_liquidity(&acc(0), &mut amounts).unwrap();
    assert_eq!(pool.swap(&acc(4), 1, &acc(2), 0, &acc(3), &None), Err(ExchangeError::MissingToken));
    assert_eq!(pool.swap(&acc(1), 0, &acc(2), 0, &acc(3), &None), Err(ExchangeError::InvalidSwap));
    assert_eq!(pool.swap(&acc(1), 1000, &acc(2), u128::MAX, &acc(3), &None), Err(ExchangeError::MinAmount));
    // a swap of 1 NEAR into a 5/10 pool at 0.3% fee:
    // 1e24 * 9970 * 1e25 / (10_000 * 5e24 + 1e24 * 9970)
    assert_eq!(pool.get_return(&acc(1), 10u128.pow(24), &acc(2)), Ok(1662497915624478906119726));
    assert_eq!(pool.share_register(&acc(0)), Err(ExchangeError::LpAlreadyRegistered));
    assert_eq!(pool.share_transfer(&acc(5), &acc(0), 1), Err(ExchangeError::NoShares));
    assert_eq!(pool.share_transfer(&acc(0), &acc(5), 1), Err(ExchangeError::LpNotRegistered));
    assert_eq!(pool.share_transfer(&acc(0), &acc(0), INIT_SHARES_SUPPLY + 1), Err(ExchangeError::NotEnoughShares));
    assert_eq!(pool.remove_liquidity(&acc(0), 1, vec![u128::MAX, 0]), Err(ExchangeError::MinAmount));
}
