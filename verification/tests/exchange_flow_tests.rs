use ref_exchange::account_deposit::Account;
use ref_exchange::action::{Action, SwapAction};
use ref_exchange::contract::Contract;
use ref_exchange::errors::ExchangeError;
use ref_exchange::event::RunningState;
use ref_exchange::token_receiver::{AddLiquidityInfo, TokenReceiverMessage, TransferOutcome};

fn exchange() -> String {
    "exchange.near".to_string()
}

fn s(x: &str) -> String {
    x.to_string()
}

fn to_yocto(n: u128) -> u128 {
    n * 10u128.pow(24)
}

fn swap(pool_id: u64, token_in: &str, amount_in: Option<u128>, token_out: &str) -> SwapAction {
    SwapAction { pool_id, token_in: s(token_in), amount_in, token_out: s(token_out), min_amount_out: 0 }
}

/// An exchange with one simple pool of a.near/b.near holding 5 and 10, and alice's account
/// with the rest of her 20 of each.
fn setup() -> (Contract, Account) {
    let mut c = Contract::new(s("owner.near"), s("boost_farm"), s("burrowland"), 4, 1).unwrap();
    c.add_simple_pool(vec![s("a.near"), s("b.near")], 30, &exchange()).unwrap();
    let mut account = Account::new(&s("alice"));
    account.near_amount = to_yocto(1);
    account.deposit(&s("a.near"), to_yocto(20)).unwrap();
    account.deposit(&s("b.near"), to_yocto(20)).unwrap();
    c.add_liquidity(&mut account, &s("alice"), 0, vec![to_yocto(5), to_yocto(10)], None, 1).unwrap();
    (c, account)
}

#[test]
fn owner_manages_guardians_and_whitelist() {
    let (mut c, _) = setup();
    let owner = s("owner.near");
    assert_eq!(c.set_owner(&owner, 0, s("new.near")), Err(ExchangeError::OneYoctoRequired));
    assert_eq!(c.set_owner(&s("bob"), 1, s("new.near")), Err(ExchangeError::NotAllowed));
    assert_eq!(c.extend_guardians(&s("bob"), 1, vec![s("g1")]), Err(ExchangeError::NotAllowed));
    assert_eq!(c.extend_guardians(&owner, 1, vec![s("g1"), s("g2"), s("g1")]), Ok(()));
    assert_eq!(c.guardians, vec![s("g1"), s("g2")]);
    assert!(c.is_owner_or_guardians(&s("g2")));
    assert_eq!(c.remove_guardians(&owner, 1, vec![s("g2"), s("zz")]), Ok(()));
    assert_eq!(c.guardians, vec![s("g1")]);
    // a guardian may pause, only the owner resumes
    assert_eq!(c.change_state(&s("g1"), 1, RunningState::Paused), Ok(()));
    assert_eq!(c.state, RunningState::Paused);
    assert_eq!(c.change_state(&s("g1"), 1, RunningState::Running), Err(ExchangeError::NotAllowed));
    assert_eq!(c.change_state(&owner, 1, RunningState::Running), Ok(()));
    assert_eq!(c.state, RunningState::Running);
    assert_eq!(c.extend_whitelisted_tokens(&s("g1"), 1, vec![s("w.near")]), Ok(()));
    assert!(c.is_whitelisted_token(&s("w.near")));
    assert_eq!(c.remove_whitelisted_tokens(&s("g1"), 1, vec![s("w.near")]), Ok(()));
    assert!(!c.is_whitelisted_token(&s("w.near")));
    assert_eq!(c.modify_admin_fee(&owner, 1, 9_000, 1_001), Err(ExchangeError::IllegalFee));
    assert_eq!(c.modify_admin_fee(&owner, 1, 20, 5), Ok(()));
    assert_eq!(c.admin_fee_bps, 25);
    assert_eq!(c.retrieve_unmanaged_token(&owner, 1, 0), Err(ExchangeError::IllegalWithdrawAmount));
    assert_eq!(c.retrieve_unmanaged_token(&owner, 1, 5), Ok(()));
    assert_eq!(c.set_owner(&owner, 1, s("new.near")), Ok(()));
    assert_eq!(c.get_owner(), s("new.near"));
}

#[test]
fn owner_moves_fee_liquidity_and_tokens() {
    let (mut c, mut account) = setup();
    // the simple pool's own exchange fee is zero: give the exchange some shares
    let mut ex_account = Account::new(&exchange());
    c.internal_mft_transfer(s(":0"), &s("alice"), &mut account, &exchange(), &mut ex_account, Some(to_yocto(1))).unwrap();
    let fee_shares = c.pools[0].share_balances(&exchange());
    assert_eq!(fee_shares, to_yocto(1));
    let mut owner_account = Account::new(&s("owner.near"));
    assert_eq!(
        c.remove_exchange_fee_liquidity(&s("owner.near"), 1, &mut owner_account, &exchange(), 0, fee_shares, vec![0, 0]),
        Ok(())
    );
    assert_eq!(c.pools[0].share_balances(&exchange()), 0);
    let got = owner_account.get_balance(&s("a.near")).unwrap();
    assert!(got > 0);
    assert_eq!(
        c.withdraw_owner_token(&s("owner.near"), 1, &mut owner_account, &s("a.near"), got + 1),
        Err(ExchangeError::NotEnoughTokens)
    );
    assert_eq!(c.withdraw_owner_token(&s("owner.near"), 1, &mut owner_account, &s("a.near"), got), Ok(()));
    assert_eq!(owner_account.get_balance(&s("a.near")), Some(0));
    // simple pools have no amp factor to ramp
    assert_eq!(c.stable_swap_ramp_amp(&s("owner.near"), 1, 0, 100, 10u64.pow(18), 0), Err(ExchangeError::NotStablePool));
    assert_eq!(c.stable_swap_stop_ramp_amp(&s("owner.near"), 1, 7, 0), Err(ExchangeError::NoPool));
}

#[test]
fn stable_pool_amp_stops_where_it_is() {
    let mut c = Contract::new(s("owner.near"), s("boost_farm"), s("burrowland"), 0, 0).unwrap();
    c.add_stable_swap_pool(&s("owner.near"), vec![s("x"), s("y")], vec![6, 6], 5, 100, &exchange()).unwrap();
    assert_eq!(c.stable_swap_stop_ramp_amp(&s("owner.near"), 1, 0, 0), Ok(()));
}

#[test]
fn multi_token_transfers() {
    let (mut c, mut alice) = setup();
    let mut bob = Account::new(&s("bob"));
    let shares = c.pools[0].share_balances(&s("alice"));
    assert_eq!(c.mft_balance_of(s(":0"), &s("alice"), None), Ok(shares));
    assert_eq!(c.mft_total_supply(s(":0")), Ok(c.pools[0].share_total_balance()));
    assert!(!c.mft_has_registered(s(":0"), &s("bob")));
    assert!(!c.mft_has_registered(s("a.near"), &s("alice")));
    // bob must be registered in the pool to receive shares
    assert_eq!(
        c.internal_mft_transfer(s(":0"), &s("alice"), &mut alice, &s("bob"), &mut bob, Some(1)),
        Err(ExchangeError::LpNotRegistered)
    );
    assert_eq!(c.mft_register(s("a.near"), &s("bob")), Err(ExchangeError::InvalidRegister));
    assert_eq!(c.mft_register(s(":0"), &s("bob")), Ok(()));
    assert!(c.mft_has_registered(s(":0"), &s("bob")));
    assert_eq!(c.mft_transfer(0, s(":0"), &s("alice"), &mut alice, &s("bob"), &mut bob, 10), Err(ExchangeError::OneYoctoRequired));
    assert_eq!(c.mft_transfer(1, s(":0"), &s("alice"), &mut alice, &s("bob"), &mut bob, 10), Ok(10));
    assert_eq!(c.mft_balance_of(s(":0"), &s("bob"), None), Ok(10));
    assert_eq!(
        c.internal_mft_transfer(s(":0"), &s("alice"), &mut alice, &s("bob"), &mut bob, Some(shares)),
        Err(ExchangeError::NotEnoughFreeShares)
    );
    assert_eq!(
        c.internal_mft_transfer(s(":0"), &s("alice"), &mut alice, &s("alice"), &mut bob, Some(1)),
        Err(ExchangeError::TransferToSelf)
    );
    assert_eq!(c.internal_mft_transfer(s(":9"), &s("alice"), &mut alice, &s("bob"), &mut bob, Some(1)), Err(ExchangeError::NoPool));
    // all the rest of alice's shares
    assert_eq!(c.mft_transfer_all_call(1, s(":0"), &s("alice"), &s("bob")), Ok(shares - 10));
    assert_eq!(c.mft_balance_of(s(":0"), &s("alice"), None), Ok(0));
    // plain tokens move between the accounts
    bob.register(&vec![s("a.near")]);
    assert_eq!(
        c.internal_mft_transfer(s("a.near"), &s("alice"), &mut alice, &s("bob"), &mut bob, Some(to_yocto(2))),
        Ok(to_yocto(2))
    );
    assert_eq!(alice.get_balance(&s("a.near")), Some(to_yocto(13)));
    assert_eq!(c.mft_balance_of(s("a.near"), &s("bob"), Some(&bob)), Ok(to_yocto(2)));
    assert_eq!(c.mft_balance_of(s("a.near"), &s("carol"), None), Ok(0));
}

#[test]
fn resolved_transfers_refund_what_is_unused() {
    let (mut c, mut alice) = setup();
    let mut bob = Account::new(&s("bob"));
    c.mft_register(s(":0"), &s("bob")).unwrap();
    c.mft_transfer(1, s(":0"), &s("alice"), &mut alice, &s("bob"), &mut bob, 100).unwrap();
    let before = c.pools[0].share_balances(&s("alice"));
    // bob reports 30 unused: they go back to alice
    assert_eq!(
        c.mft_resolve_transfer(s(":0"), &s("bob"), &mut bob, &s("alice"), true, &exchange(), &mut alice, 100, Some(30)),
        Ok(30)
    );
    assert_eq!(c.pools[0].share_balances(&s("alice")), before + 30);
    assert_eq!(c.pools[0].share_balances(&s("bob")), 70);
    // a failed call leaves everything unused, but only what bob holds comes back
    assert_eq!(
        c.mft_resolve_transfer(s(":0"), &s("bob"), &mut bob, &s("alice"), true, &exchange(), &mut alice, 500, None),
        Ok(70)
    );
    assert_eq!(c.pools[0].share_balances(&s("bob")), 0);
}

#[test]
fn transfers_with_messages() {
    let (mut c, mut alice) = setup();
    // a plain deposit of a registered token
    assert!(matches!(
        c.ft_on_transfer(&s("alice"), &mut alice, true, &s("a.near"), 7, None, &exchange(), 0),
        Ok(TransferOutcome::Deposited)
    ));
    assert_eq!(alice.get_balance(&s("a.near")), Some(to_yocto(15) + 7));
    assert_eq!(c.ft_on_transfer_deposit(&mut alice, true, &s("c.near"), 7), Err(ExchangeError::TokenNotWhitelisted));
    // swaps whose result goes straight back
    let msg = TokenReceiverMessage::Execute {
        referral_id: None,
        actions: vec![Action::Swap(swap(0, "a.near", None, "b.near"))],
        client_echo: None,
        skip_unwrap_near: None,
    };
    match c.ft_on_transfer(&s("carol"), &mut alice, true, &s("a.near"), to_yocto(1), Some(msg), &exchange(), 0) {
        Ok(TransferOutcome::Send { amounts, .. }) => {
            assert_eq!(amounts, vec![(s("b.near"), 1662497915624478906119726)]);
        },
        _ => panic!("expected tokens to send"),
    }
    assert_eq!(alice.get_balance(&s("a.near")), Some(to_yocto(15) + 7));
    let empty = TokenReceiverMessage::Execute { referral_id: None, actions: vec![], client_echo: None, skip_unwrap_near: None };
    assert!(matches!(
        c.ft_on_transfer(&s("carol"), &mut alice, true, &s("a.near"), 1, Some(empty), &exchange(), 0),
        Err(ExchangeError::AtLeastOneSwap)
    ));
}

#[test]
fn burrowland_echo_gets_one_token() {
    let (mut c, _) = setup();
    // swapping half of it leaves two tokens to send back
    let out = c.ft_on_transfer_execute(
        &s("burrowland"),
        &s("a.near"),
        to_yocto(2),
        &None,
        &vec![Action::Swap(swap(0, "a.near", Some(to_yocto(1)), "b.near"))],
        &Some(s("echo")),
        &exchange(),
        0,
    );
    assert_eq!(out, Err(ExchangeError::OneOutTokenOnly));
    let out = c
        .ft_on_transfer_execute(
            &s("someone"),
            &s("a.near"),
            to_yocto(2),
            &None,
            &vec![Action::Swap(swap(0, "a.near", Some(to_yocto(1)), "b.near"))],
            &Some(s("echo")),
            &exchange(),
            0,
        )
        .unwrap();
    assert_eq!(out.len(), 2);
    assert_eq!(out[0], (s("a.near"), to_yocto(1)));
}

#[test]
fn hot_zap_adds_liquidity_and_keeps_the_rest() {
    let (mut c, mut alice) = setup();
    let shares_before = c.pools[0].share_balances(&s("alice"));
    let infos = vec![AddLiquidityInfo {
        pool_id: 0,
        amounts: vec![to_yocto(1), to_yocto(1)],
        min_amounts: Some(vec![0, 0]),
        min_shares: None,
    }];
    let remain = c
        .ft_on_transfer_hot_zap(
            &s("alice"),
            &mut alice,
            true,
            &s("a.near"),
            to_yocto(3),
            &None,
            &vec![Action::Swap(swap(0, "a.near", Some(to_yocto(1)), "b.near"))],
            &infos,
            &exchange(),
            0,
        )
        .unwrap();
    assert!(c.pools[0].share_balances(&s("alice")) > shares_before);
    // what the pool did not take was credited
    for (t, v) in remain.iter() {
        assert!(*v > 0);
        assert!(t == "a.near" || t == "b.near");
    }
    assert_eq!(
        c.ft_on_transfer_hot_zap(&s("alice"), &mut alice, true, &s("a.near"), 1, &None, &vec![], &infos, &exchange(), 0),
        Err(ExchangeError::EmptyHotZap)
    );
    let no_min = vec![AddLiquidityInfo { pool_id: 0, amounts: vec![1000, 1000], min_amounts: None, min_shares: None }];
    assert_eq!(
        c.ft_on_transfer_hot_zap(
            &s("alice"),
            &mut alice,
            true,
            &s("a.near"),
            to_yocto(3),
            &None,
            &vec![Action::Swap(swap(0, "a.near", Some(to_yocto(1)), "b.near"))],
            &no_min,
            &exchange(),
            0,
        ),
        Err(ExchangeError::NeedMinAmounts)
    );
}

#[test]
fn actions_in_a_virtual_account() {
    let (mut c, mut alice) = setup();
    let out = c
        .execute_actions_in_va(
            &mut alice,
            &vec![(s("a.near"), to_yocto(1))],
            &vec![Action::Swap(swap(0, "a.near", Some(to_yocto(1)), "b.near"))],
            &None,
            1,
            &exchange(),
            0,
        )
        .unwrap();
    assert_eq!(out, vec![(s("b.near"), 1662497915624478906119726)]);
    assert_eq!(alice.get_balance(&s("a.near")), Some(to_yocto(14)));
    assert_eq!(alice.get_balance(&s("b.near")), Some(to_yocto(10) + 1662497915624478906119726));
    assert_eq!(
        c.execute_actions_in_va(&mut alice, &vec![(s("a.near"), to_yocto(100))], &vec![Action::Swap(swap(0, "a.near", Some(1), "b.near"))], &None, 1, &exchange(), 0),
        Err(ExchangeError::NotEnoughTokens)
    );
}

#[test]
fn predictions_match_the_swap() {
    let (c, _) = setup();
    let predicted = c
        .predict_swap_actions(
            &vec![(s("a.near"), to_yocto(1))],
            &vec![Action::Swap(swap(0, "a.near", Some(to_yocto(1)), "b.near"))],
            &exchange(),
            0,
        )
        .unwrap();
    // the deposit is used up, its entry leaves the cache
    assert_eq!(predicted, vec![(s("b.near"), 1662497915624478906119726)]);
    let (c, _) = setup();
    assert_eq!(
        c.predict_swap_actions(&vec![(s("a.near"), 5)], &vec![Action::Swap(swap(0, "a.near", Some(6), "b.near"))], &exchange(), 0),
        Err(ExchangeError::NotEnoughTokens)
    );
}

#[test]
fn refunds_after_failed_withdrawals() {
    let (c, _) = setup();
    let mut alice = Account::new(&s("alice"));
    alice.near_amount = to_yocto(1);
    let mut owner = Account::new(&s("owner.near"));
    // a successful transfer changes nothing
    assert_eq!(c.exchange_callback_post_withdraw(true, &mut alice, true, &mut owner, &s("a.near"), 5, 10u128.pow(19)), Ok(false));
    // alice has storage for a new token
    assert_eq!(c.exchange_callback_post_withdraw(false, &mut alice, true, &mut owner, &s("a.near"), 5, 10u128.pow(19)), Ok(false));
    assert_eq!(alice.get_balance(&s("a.near")), Some(5));
    // an unregistered sender's tokens go to the owner, whitelisted ones only
    assert_eq!(
        c.exchange_callback_post_withdraw(false, &mut alice, false, &mut owner, &s("a.near"), 5, 10u128.pow(19)),
        Err(ExchangeError::LostfoundNotWhitelisted)
    );
    let mut c = c;
    c.whitelisted_tokens.push(s("a.near"));
    assert_eq!(c.exchange_callback_post_withdraw(false, &mut alice, false, &mut owner, &s("a.near"), 5, 10u128.pow(19)), Ok(true));
    assert_eq!(owner.get_balance(&s("a.near")), Some(5));
}

#[test]
fn storage_checks() {
    let mut account = Account::new(&s("alice"));
    account.near_amount = 2000;
    // 102 bytes for the account, 148 for a token, at 10 each
    assert_eq!(account.deposit_with_storage_check(&s("t"), 3, 10), Ok(false));
    assert_eq!(account.get_balance(&s("t")), None);
    account.near_amount = 2500;
    assert_eq!(account.deposit_with_storage_check(&s("t"), 3, 10), Ok(true));
    assert_eq!(account.deposit_with_storage_check(&s("t"), 4, 10), Ok(true));
    assert_eq!(account.get_balance(&s("t")), Some(7));
    assert_eq!(account.pay_storage(2501), Err(ExchangeError::InsufficientStorage));
    assert_eq!(account.pay_storage(500), Ok(()));
    assert_eq!(account.near_amount, 2000);
    let c = Contract::new(s("o"), s("b"), s("l"), 0, 0).unwrap();
    assert_eq!(c.internal_check_storage(100, 150, 10, 600), Ok((500, 100)));
    assert_eq!(c.internal_check_storage(150, 100, 10, 600), Ok((0, 600)));
    assert_eq!(c.internal_check_storage(100, 150, 10, 499), Err(ExchangeError::StorageDepositShort));
}

#[test]
fn hot_zap_refusals_name_their_cause() {
    let (mut c, mut alice) = setup();
    let zap = |pool_id: u64, amounts: Vec<u128>| vec![AddLiquidityInfo { pool_id, amounts, min_amounts: Some(vec![0, 0]), min_shares: None }];
    let swaps = vec![Action::Swap(swap(0, "a.near", Some(to_yocto(1)), "b.near"))];
    // an addition to a pool that does not exist
    assert_eq!(
        c.ft_on_transfer_hot_zap(&s("alice"), &mut alice, true, &s("a.near"), to_yocto(3), &None, &swaps, &zap(7, vec![1, 1]), &exchange(), 0),
        Err(ExchangeError::NoPool)
    );
    // an addition that takes more than the swaps left
    assert_eq!(
        c.ft_on_transfer_hot_zap(&s("alice"), &mut alice, true, &s("a.near"), to_yocto(3), &None, &swaps, &zap(0, vec![to_yocto(2), to_yocto(4)]), &exchange(), 0),
        Err(ExchangeError::NotEnoughTokens)
    );
    // swaps that cannot go through
    let bad = vec![Action::Swap(swap(0, "a.near", Some(to_yocto(9)), "b.near"))];
    assert!(c.ft_on_transfer_hot_zap(&s("alice"), &mut alice, true, &s("a.near"), to_yocto(3), &None, &bad, &zap(0, vec![1, 1]), &exchange(), 0).is_err());
}
