use ref_exchange::account_deposit::Account;
use ref_exchange::action::{Action, ActionResult, SwapAction};
use ref_exchange::contract::Contract;
use ref_exchange::errors::ExchangeError;
use ref_exchange::event::RunningState;

fn exchange() -> String {
    "exchange.near".to_string()
}

fn to_yocto(n: u128) -> u128 {
    n * 10u128.pow(24)
}

fn setup() -> (Contract, Account) {
    let mut c = Contract::new("owner.near".to_string(), "boost_farm".to_string(), "burrowland".to_string(), 4, 1).unwrap();
    assert_eq!(c.admin_fee_bps, 5);
    let id = c.add_simple_pool(vec!["a.near".to_string(), "b.near".to_string()], 30, &exchange()).unwrap();
    assert_eq!(id, 0);
    let mut account = Account::new(&"alice".to_string());
    account.near_amount = to_yocto(1);
    account.deposit(&"a.near".to_string(), to_yocto(20)).unwrap();
    account.deposit(&"b.near".to_string(), to_yocto(20)).unwrap();
    let shares = c
        .add_liquidity(&mut account, &"alice".to_string(), 0, vec![to_yocto(5), to_yocto(10)], None, 1)
        .unwrap();
    assert!(shares > 0);
    assert_eq!(account.get_balance(&"a.near".to_string()), Some(to_yocto(15)));
    assert_eq!(account.get_balance(&"b.near".to_string()), Some(to_yocto(10)));
    (c, account)
}

fn swap(pool_id: u64, token_in: &str, amount_in: Option<u128>, token_out: &str) -> SwapAction {
    SwapAction { pool_id, token_in: token_in.to_string(), amount_in, token_out: token_out.to_string(), min_amount_out: 0 }
}

#[test]
fn swaps_through_the_exchange_move_deposits() {
    let (mut c, mut account) = setup();
    let out = c.swap(&mut account, vec![swap(0, "a.near", Some(to_yocto(1)), "b.near")], &None, 1, &exchange(), 0).unwrap();
    // 1 NEAR into a 5/10 pool at 0.3% fee
    assert_eq!(out, 1662497915624478906119726);
    assert_eq!(account.get_balance(&"a.near".to_string()), Some(to_yocto(14)));
    assert_eq!(account.get_balance(&"b.near".to_string()), Some(to_yocto(10) + out));
    // a round trip: the second step takes what the first gave
    let back = c
        .execute_actions(
            &mut account,
            &vec![Action::Swap(swap(0, "b.near", Some(out), "a.near")), Action::Swap(swap(0, "a.near", None, "b.near"))],
            &None,
            1,
            &exchange(),
            0,
        )
        .unwrap();
    assert!(matches!(back, ActionResult::Amount(_)));
}

#[test]
fn exchange_refusals() {
    let (mut c, mut account) = setup();
    assert_eq!(c.swap(&mut account, vec![], &None, 1, &exchange(), 0), Err(ExchangeError::AtLeastOneSwap));
    assert_eq!(c.swap(&mut account, vec![swap(3, "a.near", Some(1), "b.near")], &None, 1, &exchange(), 0), Err(ExchangeError::NoPool));
    assert_eq!(c.swap(&mut account, vec![swap(0, "a.near", None, "b.near")], &None, 1, &exchange(), 0), Err(ExchangeError::WrongActionResult));
    // without a deposit attached, tokens must be registered or whitelisted
    assert_eq!(c.swap(&mut account, vec![swap(0, "a.near", Some(1), "c.near")], &None, 0, &exchange(), 0), Err(ExchangeError::DepositNeeded));
    c.frozen_tokens.push("a.near".to_string());
    assert_eq!(c.swap(&mut account, vec![swap(0, "a.near", Some(1), "b.near")], &None, 1, &exchange(), 0), Err(ExchangeError::FrozenToken));
    c.state = RunningState::Paused;
    assert_eq!(c.swap(&mut account, vec![swap(0, "a.near", Some(1), "b.near")], &None, 1, &exchange(), 0), Err(ExchangeError::ContractPaused));
    assert_eq!(
        c.add_simple_pool(vec!["x".to_string(), "y".to_string()], 30, &exchange()),
        Err(ExchangeError::ContractPaused)
    );
}

#[test]
fn pools_are_added_with_checks() {
    let mut c = Contract::new("owner.near".to_string(), "boost_farm".to_string(), "burrowland".to_string(), 0, 0).unwrap();
    assert_eq!(
        c.add_simple_pool(vec!["x".to_string(), "x".to_string()], 30, &exchange()),
        Err(ExchangeError::TokenDuplicates)
    );
    assert_eq!(
        c.add_stable_swap_pool(&"someone".to_string(), vec!["x".to_string(), "y".to_string()], vec![6, 6], 5, 100, &exchange()),
        Err(ExchangeError::NotAllowed)
    );
    assert_eq!(
        c.add_stable_swap_pool(&"owner.near".to_string(), vec!["x".to_string(), "y".to_string()], vec![6], 5, 100, &exchange()),
        Err(ExchangeError::TokensDecimalsMismatch)
    );
    assert_eq!(
        c.add_stable_swap_pool(&"owner.near".to_string(), vec!["x".to_string(), "y".to_string()], vec![6, 6], 5, 100, &exchange()),
        Ok(0)
    );
    assert_eq!(c.pools[0].kind(), "STABLE_SWAP");
    assert_eq!(c.pools[0].share_balances(&exchange()), 0);
    assert_eq!(c.pools[0].share_register(&exchange()), Err(ExchangeError::LpAlreadyRegistered));
}

#[test]
fn storage_withdraw() {
    let mut account = Account::new(&"alice".to_string());
    account.near_amount = 2000;
    assert_eq!(Contract::internal_storage_withdraw(&mut account, 0, 10), Ok(980));
    assert_eq!(account.near_amount, 1020);
    assert_eq!(Contract::internal_storage_withdraw(&mut account, 0, 10), Err(ExchangeError::NoStorageCanWithdraw));
    account.near_amount = 2000;
    assert_eq!(Contract::internal_storage_withdraw(&mut account, 981, 10), Err(ExchangeError::StorageWithdrawTooMuch));
    assert_eq!(Contract::internal_storage_withdraw(&mut account, 100, 10), Ok(100));
}
