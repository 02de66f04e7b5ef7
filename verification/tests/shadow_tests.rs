use ref_exchange::account_deposit::Account;
use ref_exchange::contract::Contract;
use ref_exchange::errors::ExchangeError;
use ref_exchange::event::RunningState;
use ref_exchange::shadow_record::{ShadowActions, ShadowRecord};
use ref_exchange::shadow_steps::callback_on_shadow_step;

fn s(x: &str) -> String {
    x.to_string()
}

fn to_yocto(n: u128) -> u128 {
    n * 10u128.pow(24)
}

fn exchange() -> String {
    s("exchange.near")
}

/// A simple pool of a.near/b.near in which alice holds every share.
fn setup() -> (Contract, Account, u128) {
    let mut c = Contract::new(s("owner.near"), s("boost_farm"), s("burrowland"), 4, 1).unwrap();
    c.add_simple_pool(vec![s("a.near"), s("b.near")], 30, &exchange()).unwrap();
    let mut alice = Account::new(&s("alice"));
    alice.near_amount = to_yocto(1);
    alice.deposit(&s("a.near"), to_yocto(20)).unwrap();
    alice.deposit(&s("b.near"), to_yocto(20)).unwrap();
    let shares = c.add_liquidity(&mut alice, &s("alice"), 0, vec![to_yocto(5), to_yocto(10)], None, 1).unwrap();
    (c, alice, shares)
}

#[test]
fn casting_shares_records_them_and_names_the_call() {
    let (c, mut alice, shares) = setup();
    let call = c.shadow_action_step(&mut alice, &s("alice"), ShadowActions::ToFarming, 0, None).unwrap();
    assert_eq!(call.amount, shares);
    assert_eq!(call.receiver_id, s("boost_farm"));
    assert_eq!(call.shadow_id, s("shadow_ref_v1-0"));
    assert!(call.cast);
    assert_eq!(alice.get_shadow_record(0), Some(ShadowRecord { shadow_in_farm: shares, shadow_in_burrow: 0 }));
    // nothing is left to cast to the farm; burrowland may still take them all
    assert_eq!(c.shadow_action_step(&mut alice, &s("alice"), ShadowActions::ToFarming, 0, None).err(), Some(ExchangeError::ZeroShadowAmount));
    assert_eq!(
        c.shadow_action_step(&mut alice, &s("alice"), ShadowActions::ToBurrowland, 0, Some(shares + 1)).err(),
        Some(ExchangeError::ShadowAmountTooLarge { max: shares })
    );
    let call = c.shadow_action_step(&mut alice, &s("alice"), ShadowActions::ToBurrowland, 0, Some(shares / 2)).unwrap();
    assert_eq!(call.receiver_id, s("burrowland"));
    assert_eq!(alice.get_shadow_record(0), Some(ShadowRecord { shadow_in_farm: shares, shadow_in_burrow: shares / 2 }));
    assert_eq!(c.shadow_action_step(&mut alice, &s("alice"), ShadowActions::ToFarming, 3, None).err(), Some(ExchangeError::NoPool));
}

#[test]
fn cast_shares_cannot_move_or_burn() {
    let (mut c, mut alice, shares) = setup();
    c.shadow_action_step(&mut alice, &s("alice"), ShadowActions::ToFarming, 0, Some(shares - 10)).unwrap();
    assert_eq!(c.remove_liquidity(&mut alice, &s("alice"), 0, 11, vec![0, 0]), Err(ExchangeError::NotEnoughFreeShares));
    let mut bob = Account::new(&s("bob"));
    c.mft_register(s(":0"), &s("bob")).unwrap();
    assert_eq!(
        c.internal_mft_transfer(s(":0"), &s("alice"), &mut alice, &s("bob"), &mut bob, Some(11)),
        Err(ExchangeError::NotEnoughFreeShares)
    );
    // all that is free, where no amount is given
    assert_eq!(c.internal_mft_transfer(s(":0"), &s("alice"), &mut alice, &s("bob"), &mut bob, None), Ok(10));
}

#[test]
fn callbacks_undo_refused_casts_and_record_releases() {
    let (c, mut alice, shares) = setup();
    c.shadow_action_step(&mut alice, &s("alice"), ShadowActions::ToBurrowland, 0, Some(100)).unwrap();
    assert_eq!(callback_on_shadow_step(&mut alice, ShadowActions::ToBurrowland, 0, 100, false), Ok(false));
    assert_eq!(alice.get_shadow_record(0), None);
    c.shadow_action_step(&mut alice, &s("alice"), ShadowActions::ToFarming, 0, Some(shares)).unwrap();
    // a release is recorded only once the farm confirms it
    let call = c.shadow_action_step(&mut alice, &s("alice"), ShadowActions::FromFarming, 0, Some(10)).unwrap();
    assert!(!call.cast);
    assert_eq!(alice.get_shadow_record(0), Some(ShadowRecord { shadow_in_farm: shares, shadow_in_burrow: 0 }));
    assert_eq!(callback_on_shadow_step(&mut alice, ShadowActions::FromFarming, 0, 10, true), Ok(true));
    assert_eq!(alice.get_shadow_record(0), Some(ShadowRecord { shadow_in_farm: shares - 10, shadow_in_burrow: 0 }));
    assert_eq!(
        callback_on_shadow_step(&mut alice, ShadowActions::FromBurrowland, 0, 1, true),
        Err(ExchangeError::NotEnoughShadowShares)
    );
}

#[test]
fn burrowland_liquidates_cast_shares() {
    let (mut c, mut alice, shares) = setup();
    c.shadow_action_step(&mut alice, &s("alice"), ShadowActions::ToFarming, 0, Some(shares - 10)).unwrap();
    c.shadow_action_step(&mut alice, &s("alice"), ShadowActions::ToBurrowland, 0, Some(shares / 2)).unwrap();
    let mut liquidator = Account::new(&s("liquidator"));
    let amount = shares / 4;
    assert_eq!(
        c.on_burrow_liquidation_step(&s("someone"), &mut liquidator, &mut alice, &s("alice"), &s("shadow_ref_v1-0"), amount, vec![0, 0]),
        Err(ExchangeError::NotAllowed)
    );
    assert_eq!(
        c.on_burrow_liquidation_step(&s("burrowland"), &mut liquidator, &mut alice, &s("alice"), &s("shadow_ref_v1-x"), amount, vec![0, 0]),
        Err(ExchangeError::IllegalPoolId)
    );
    // 10 shares are free once burrowland lets go of its part: the rest comes from the farm
    let seed = c
        .on_burrow_liquidation_step(&s("burrowland"), &mut liquidator, &mut alice, &s("alice"), &s("shadow_ref_v1-0"), amount, vec![0, 0])
        .unwrap();
    assert_eq!(seed, amount - 10);
    assert_eq!(
        alice.get_shadow_record(0),
        Some(ShadowRecord { shadow_in_farm: shares - 10 - (amount - 10), shadow_in_burrow: shares / 2 - amount })
    );
    assert_eq!(c.pools[0].share_balances(&s("alice")), shares - amount);
    assert!(liquidator.get_balance(&s("a.near")).unwrap() > 0);
    assert!(liquidator.get_balance(&s("b.near")).unwrap() > 0);
}

#[test]
fn shadow_actions_wait_while_paused() {
    let (mut c, mut alice, _) = setup();
    c.state = RunningState::Paused;
    assert_eq!(c.shadow_action_step(&mut alice, &s("alice"), ShadowActions::ToFarming, 0, None).err(), Some(ExchangeError::ContractPaused));
}

/// A stable pool of x/y (6 decimals each) into which alice put 1000 x and 2000 y, and a
/// simple pool of the same tokens.
fn stable_setup() -> (Contract, Account, u128) {
    let mut c = Contract::new(s("owner.near"), s("boost_farm"), s("burrowland"), 0, 0).unwrap();
    c.add_stable_swap_pool(&s("owner.near"), vec![s("x"), s("y")], vec![6, 6], 5, 100, &exchange()).unwrap();
    c.add_simple_pool(vec![s("x"), s("y")], 30, &exchange()).unwrap();
    let mut alice = Account::new(&s("alice"));
    alice.deposit(&s("x"), 10_000_000_000).unwrap();
    alice.deposit(&s("y"), 10_000_000_000).unwrap();
    let amounts = vec![1_000_000_000, 2_000_000_000];
    assert_eq!(
        c.add_stable_liquidity(&mut alice, &s("alice"), 0, amounts.clone(), 1, 0, &exchange(), 0),
        Err(ExchangeError::AtLeastOneYocto)
    );
    assert_eq!(
        c.add_stable_liquidity(&mut alice, &s("alice"), 1, amounts.clone(), 1, 1, &exchange(), 0),
        Err(ExchangeError::Unsupported)
    );
    let shares = c.add_stable_liquidity(&mut alice, &s("alice"), 0, amounts, 1, 1, &exchange(), 0).unwrap();
    (c, alice, shares)
}

#[test]
fn stable_liquidity_in_any_mix() {
    let (mut c, mut alice, shares) = stable_setup();
    assert!(shares > 0);
    assert_eq!(alice.get_balance(&s("x")), Some(9_000_000_000));
    assert_eq!(alice.get_balance(&s("y")), Some(8_000_000_000));
    assert_eq!(c.pools[0].share_balances(&s("alice")), shares);
    assert_eq!(
        c.remove_liquidity_by_tokens(&mut alice, &s("alice"), 0, vec![100_000_000, 0], shares, 0, &exchange(), 0),
        Err(ExchangeError::OneYoctoRequired)
    );
    let burnt = c.remove_liquidity_by_tokens(&mut alice, &s("alice"), 0, vec![100_000_000, 0], shares, 1, &exchange(), 0).unwrap();
    assert!(burnt > 0 && burnt < shares);
    assert_eq!(alice.get_balance(&s("x")), Some(9_100_000_000));
    assert_eq!(c.pools[0].share_balances(&s("alice")), shares - burnt);
}

#[test]
fn cast_stable_shares_cannot_be_burnt() {
    let (mut c, mut alice, shares) = stable_setup();
    c.shadow_action_step(&mut alice, &s("alice"), ShadowActions::ToFarming, 0, Some(shares)).unwrap();
    assert_eq!(
        c.remove_liquidity_by_tokens(&mut alice, &s("alice"), 0, vec![100_000_000, 0], shares, 1, &exchange(), 0),
        Err(ExchangeError::NotEnoughFreeShares)
    );
}
