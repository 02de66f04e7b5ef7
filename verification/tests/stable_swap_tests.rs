use ref_exchange::admin_fee::AdminFees;
use ref_exchange::errors::ExchangeError;
use ref_exchange::stable_swap::math::MIN_RAMP_DURATION;
use ref_exchange::stable_swap::{StableSwapPool, MIN_RESERVE};

fn acc(i: usize) -> String {
    ["alice", "bob", "charlie", "danny", "eugene", "fargo"][i].to_string()
}

/// The account the exchange runs under in these tests.
fn exchange() -> String {
    "alice.near".to_string()
}

fn swap(pool: &mut StableSwapPool, token_in: usize, amount_in: u128, token_out: usize) -> u128 {
    pool.swap(&acc(token_in), amount_in, &acc(token_out), 0, &AdminFees::zero(exchange()), 0)
        .unwrap()
}

fn two_token_pool(decimals: Vec<u8>, amp: u128, fee: u32) -> StableSwapPool {
    let pool = StableSwapPool::new(0, vec![acc(1), acc(2)], decimals, amp, fee).unwrap();
    assert_eq!(pool.tokens(), &vec![acc(1), acc(2)]);
    pool
}

#[test]
fn test_stable_julia_01() {
    let fees = AdminFees::zero(exchange());
    let mut pool = two_token_pool(vec![6, 6], 1000, 0);
    let amounts = vec![100000000000, 100000000000];
    let _ = pool.add_liquidity(&acc(0), &amounts, 1, &fees, 0).unwrap();
    let out = swap(&mut pool, 1, 10000000000, 2);
    assert_eq!(out, 9999495232);
    assert_eq!(pool.c_amounts, vec![110000000000000000000000, 90000504767247802010005]);
}

#[test]
fn test_stable_romeo_01() {
    let fees = AdminFees::zero(exchange());
    let mut pool = two_token_pool(vec![18, 24], 1000, 0);
    let amounts = vec![100000000000000000000000, 100000000000000000000000000000];
    let _ = pool.add_liquidity(&acc(0), &amounts, 1, &fees, 0).unwrap();
    let out = swap(&mut pool, 1, 10000000000000000000000, 2);
    assert_eq!(out, 9999495232752197989995000000);
    assert_eq!(pool.c_amounts, vec![110000000000000000000000, 90000504767247802010005]);
}

#[test]
fn test_stable_julia_02() {
    let fees = AdminFees::zero(exchange());
    let mut pool = two_token_pool(vec![6, 6], 1000, 0);
    let amounts = vec![100000000000, 100000000000];
    let _ = pool.add_liquidity(&acc(0), &amounts, 1, &fees, 0).unwrap();
    let out = swap(&mut pool, 1, 0, 2);
    assert_eq!(out, 0);
    assert_eq!(pool.c_amounts, vec![100000000000000000000000, 100000000000000000000000]);
}

#[test]
fn test_stable_romeo_02() {
    let fees = AdminFees::zero(exchange());
    let mut pool = two_token_pool(vec![18, 24], 1000, 0);
    let amounts = vec![100000000000000000000000, 100000000000000000000000000000];
    let _ = pool.add_liquidity(&acc(0), &amounts, 1, &fees, 0).unwrap();
    let out = swap(&mut pool, 1, 0, 2);
    assert_eq!(out, 0);
    assert_eq!(pool.c_amounts, vec![100000000000000000000000, 100000000000000000000000]);
}

#[test]
fn test_stable_julia_03() {
    let fees = AdminFees::zero(exchange());
    let mut pool = two_token_pool(vec![6, 6], 1000, 0);
    let amounts = vec![100000000000, 100000000000];
    let _ = pool.add_liquidity(&acc(0), &amounts, 1, &fees, 0).unwrap();
    let out = swap(&mut pool, 1, 1, 2);
    assert_eq!(out, 0);
    assert_eq!(pool.c_amounts, vec![100000000001000000000000, 99999999999000000000001]);
}

#[test]
fn test_stable_romeo_03() {
    let fees = AdminFees::zero(exchange());
    let mut pool = two_token_pool(vec![18, 24], 1000, 0);
    let amounts = vec![100000000000000000000000, 100000000000000000000000000000];
    let _ = pool.add_liquidity(&acc(0), &amounts, 1, &fees, 0).unwrap();
    let out = swap(&mut pool, 1, 1, 2);
    assert_eq!(out, 0);
    assert_eq!(pool.c_amounts, vec![100000000000000000000001, 100000000000000000000000]);
}

#[test]
fn test_stable_julia_04() {
    let fees = AdminFees::zero(exchange());
    let mut pool = two_token_pool(vec![6, 6], 1000, 0);
    let amounts = vec![100000000000, 100000000000];
    let _ = pool.add_liquidity(&acc(0), &amounts, 1, &fees, 0).unwrap();
    let out = swap(&mut pool, 1, 100000000000, 2);
    assert_eq!(out, 98443663539);
    assert_eq!(pool.c_amounts, vec![200000000000000000000000, 1556336460086846919344]);
}

#[test]
fn test_stable_romeo_04() {
    let fees = AdminFees::zero(exchange());
    let mut pool = two_token_pool(vec![18, 24], 1000, 0);
    let amounts = vec![100000000000000000000000, 100000000000000000000000000000];
    let _ = pool.add_liquidity(&acc(0), &amounts, 1, &fees, 0).unwrap();
    let out = swap(&mut pool, 1, 100000000000000000000000, 2);
    assert_eq!(out, 98443663539913153080656000000);
    assert_eq!(pool.c_amounts, vec![200000000000000000000000, 1556336460086846919344]);
}

#[test]
fn test_stable_julia_05() {
    let fees = AdminFees::zero(exchange());
    let mut pool = two_token_pool(vec![6, 6], 1000, 0);
    let amounts = vec![100000000000, 100000000000];
    let _ = pool.add_liquidity(&acc(0), &amounts, 1, &fees, 0).unwrap();
    let out = swap(&mut pool, 1, 99999000000, 2);
    assert_eq!(out, 98443167413);
    assert_eq!(pool.c_amounts, vec![199999000000000000000000, 1556832586795864493704]);
}

#[test]
fn test_stable_romeo_05() {
    let fees = AdminFees::zero(exchange());
    let mut pool = two_token_pool(vec![18, 24], 1000, 0);
    let amounts = vec![100000000000000000000000, 100000000000000000000000000000];
    let _ = pool.add_liquidity(&acc(0), &amounts, 1, &fees, 0).unwrap();
    let out = swap(&mut pool, 1, 99999000000000000000000, 2);
    assert_eq!(out, 98443167413204135506296000000);
    assert_eq!(pool.c_amounts, vec![199999000000000000000000, 1556832586795864493704]);
}

#[test]
fn test_min_reserve_by_shares() {
    let fees = AdminFees::zero(exchange());
    let mut pool = two_token_pool(vec![18, 18], 1000, 0);
    let amounts = vec![1000000000000000000, 1000000000000000000];
    let shares = pool.add_liquidity(&acc(0), &amounts, 1, &fees, 0).unwrap();
    pool.remove_liquidity_by_shares(&acc(0), shares - 2 * MIN_RESERVE, vec![0, 0]).unwrap();
    assert_eq!(vec![MIN_RESERVE, MIN_RESERVE], pool.c_amounts);
}

#[test]
fn test_min_reserve_by_tokens() {
    let fees = AdminFees::zero(exchange());
    let mut pool = two_token_pool(vec![18, 18], 1000, 0);
    let amounts = vec![100000000000000000000000, 100000000000000000000000000000];
    let shares = pool.add_liquidity(&acc(0), &amounts, 1, &fees, 0).unwrap();
    pool.remove_liquidity_by_tokens(
        &acc(0),
        vec![amounts[0] - MIN_RESERVE, amounts[1] - MIN_RESERVE],
        shares,
        &AdminFees::zero(exchange()),
        0,
    )
    .unwrap();
    assert_eq!(vec![MIN_RESERVE, MIN_RESERVE], pool.c_amounts);
}

#[test]
fn test_stable_max() {
    let fees = AdminFees::zero(exchange());
    let names: Vec<String> = vec![
        "aone.near", "atwo.near", "athree.near", "afour.near", "afive.near", "asix.near",
        "aseven.near", "aeight.near", "anine.near",
    ]
    .into_iter()
    .map(|s| s.to_string())
    .collect();
    let mut pool = StableSwapPool::new(0, names.clone(), vec![6; 9], 1000, 0).unwrap();
    assert_eq!(pool.tokens(), &names);
    let amounts = vec![100000000000_000000; 9];
    let share = pool.add_liquidity(&acc(0), &amounts, 1, &fees, 0).unwrap();
    assert_eq!(share, 900000000000_000000000000000000);
    let out = pool
        .swap(
            &String::from("aone.near"),
            99999000000,
            &String::from("atwo.near"),
            0,
            &AdminFees::zero(exchange()),
            0,
        )
        .unwrap();
    assert_eq!(out, 99998999999);
}

#[test]
fn test_stable_basics() {
    let fees = AdminFees::zero(exchange());
    let mut pool = two_token_pool(vec![6, 6], 10000, 0);
    let amounts = vec![5000000, 10000000];
    let _ = pool.add_liquidity(&acc(0), &amounts, 1, &fees, 0).unwrap();

    let out = swap(&mut pool, 1, 1000000, 2);
    assert_eq!(out, 1000031);
    assert_eq!(pool.c_amounts, vec![6000000000000000000, 8999968751649207661]);
    let out2 = swap(&mut pool, 2, out, 1);
    assert_eq!(out2, 999999); // due to precision difference.
    assert_eq!(pool.c_amounts, vec![5000000248340316023, 9999999751649207661]);

    // Add only one side of the capital.
    let amounts2 = vec![5000000, 0];
    let num_shares = pool.add_liquidity(&acc(0), &amounts2, 1, &fees, 0).unwrap();

    // Withdraw on same side of the capital.
    let shares_burned = pool
        .remove_liquidity_by_tokens(&acc(0), vec![5000000, 0], num_shares, &fees, 0)
        .unwrap();
    assert_eq!(shares_burned, num_shares);

    // Add only one side of the capital, and withdraw by share
    let amounts2 = vec![5000000, 0];
    let num_shares = pool.add_liquidity(&acc(0), &amounts2, 1, &fees, 0).unwrap();

    let tokens = pool.remove_liquidity_by_shares(&acc(0), num_shares, vec![1, 1]).unwrap();
    assert_eq!(tokens[0], 2500023);
    assert_eq!(tokens[1], 2500023);

    // Add only one side of the capital, and withdraw from another side
    let amounts2 = vec![5000000, 0];
    let num_shares = pool.add_liquidity(&acc(0), &amounts2, 1, &fees, 0).unwrap();
    let shares_burned = pool
        .remove_liquidity_by_tokens(&acc(0), vec![0, 5000000 - 1200], num_shares, &fees, 0)
        .unwrap();
    // as imbalance withdraw, will lose a little amount token
    assert!(shares_burned < num_shares);
}

/// Test everything with fees.
#[test]
fn test_stable_with_fees() {
    let mut pool = two_token_pool(vec![6, 6], 10000, 2000);
    let amounts = vec![5000000, 10000000];
    let fees = AdminFees::new(1000, exchange()); // 10% exchange fee

    let num_shares = pool.add_liquidity(&acc(0), &amounts, 1, &fees, 0).unwrap();

    let amount_out = pool.swap(&acc(1), 1000000, &acc(2), 1, &fees, 0).unwrap();
    println!("swap out: {}", amount_out);
    let tokens = pool.remove_liquidity_by_shares(&acc(0), num_shares / 2, vec![1, 1]).unwrap();
    assert_eq!(tokens[0], 2996052);
    assert_eq!(tokens[1], 4593934);
}

/// Test that adding and then removing all of the liquidity is refused: the pool must keep
/// its minimum reserve.
#[test]
fn test_stable_add_transfer_remove_liquidity() {
    let mut pool = two_token_pool(vec![6, 6], 10000, 0);
    let amounts = vec![5000000, 10000000];
    let fees = AdminFees::zero(exchange());
    let num_shares = pool.add_liquidity(&acc(0), &amounts, 1, &fees, 0).unwrap();
    assert_eq!(amounts, vec![5000000, 10000000]);
    assert!(num_shares > 1);
    assert_eq!(num_shares, pool.share_balance_of(&acc(0)));
    assert_eq!(pool.share_total_balance(), num_shares);

    // Move shares to another account.
    pool.share_register(&acc(3)).unwrap();
    pool.share_transfer(&acc(0), &acc(3), num_shares).unwrap();
    assert_eq!(pool.share_balance_of(&acc(0)), 0);
    assert_eq!(pool.share_balance_of(&acc(3)), num_shares);
    assert_eq!(pool.share_total_balance(), num_shares);

    // Remove all liquidity.
    let r = pool.remove_liquidity_by_shares(&acc(3), num_shares, vec![1, 1]);
    assert_eq!(r, Err(ExchangeError::MinReserve));
    assert_eq!(
        ExchangeError::MinReserve.message(),
        "E69: pool reserved token balance less than MIN_RESERVE"
    );
}

/// Test ramping up amplification factor, ramping it even more and then stopping.
#[test]
fn test_stable_ramp_amp() {
    let mut pool = two_token_pool(vec![6, 6], 10000, 0);

    let start_ts = MIN_RAMP_DURATION + 1_000_000_000;
    pool.ramp_amplification(50000, start_ts + MIN_RAMP_DURATION * 10, start_ts).unwrap();
    pool.ramp_amplification(150000, start_ts + MIN_RAMP_DURATION * 20, start_ts + MIN_RAMP_DURATION * 3)
        .unwrap();
    pool.stop_ramp_amplification(start_ts + MIN_RAMP_DURATION * 5).unwrap();
}
