use ref_exchange::account_deposit::{Account, INIT_ACCOUNT_STORAGE};
use ref_exchange::action::{assert_all_same_action_type, get_tokens_in_actions, Action, ActionResult, SwapAction, SwapByOutputAction};
use ref_exchange::errors::ExchangeError;

fn swap_action(pool_id: u64, token_in: &str, token_out: &str) -> Action {
    Action::Swap(SwapAction {
        pool_id,
        token_in: token_in.to_string(),
        amount_in: None,
        token_out: token_out.to_string(),
        min_amount_out: 0,
    })
}

#[test]
fn tokens_in_actions_are_listed_once() {
    let actions = vec![swap_action(0, "a", "b"), swap_action(1, "b", "c"), swap_action(2, "c", "a")];
    let mut tokens = get_tokens_in_actions(&actions);
    tokens.sort();
    assert_eq!(tokens, vec!["a".to_string(), "b".to_string(), "c".to_string()]);
    assert_eq!(actions[1].tokens(), vec!["b".to_string(), "c".to_string()]);
    assert_eq!(actions[1].get_pool_id(), 1);
    assert_eq!(actions[2].get_token_in(), "c");
    assert_eq!(actions[2].get_token_out(), "a");
    assert_eq!(actions[0].get_amount_out(), Err(ExchangeError::Unsupported));
}

#[test]
fn actions_must_be_of_one_kind() {
    let by_output = Action::SwapByOutput(SwapByOutputAction {
        pool_id: 0,
        token_in: "a".to_string(),
        amount_out: Some(5),
        token_out: "b".to_string(),
        max_amount_in: None,
    });
    assert_eq!(by_output.get_amount_out(), Ok(Some(5)));
    assert!(assert_all_same_action_type(&vec![]).is_ok());
    assert!(assert_all_same_action_type(&vec![swap_action(0, "a", "b"), swap_action(1, "b", "a")]).is_ok());
    assert_eq!(assert_all_same_action_type(&vec![swap_action(0, "a", "b"), by_output]), Err(ExchangeError::InvalidActionType));
    assert_eq!(ActionResult::Amount(7).to_amount(), Ok(7));
    assert_eq!(ActionResult::Nothing.to_amount(), Err(ExchangeError::WrongActionResult));
}

#[test]
fn account_deposit_and_withdraw() {
    let mut account = Account::new(&"alice".to_string());
    let t = "token.near".to_string();
    assert_eq!(account.get_balance(&t), None);
    assert_eq!(account.withdraw(&t, 1), Err(ExchangeError::TokenNotRegistered));
    account.deposit(&t, 100).unwrap();
    assert_eq!(account.get_balance(&t), Some(100));
    assert_eq!(account.withdraw(&t, 101), Err(ExchangeError::NotEnoughTokens));
    account.withdraw(&t, 40).unwrap();
    assert_eq!(account.get_balance(&t), Some(60));
    assert_eq!(account.deposit(&t, u128::MAX), Err(ExchangeError::ArithmeticOverflow));
    assert_eq!(account.get_balance(&t), Some(60));
    assert_eq!(account.unregister(&t), Err(ExchangeError::NonZeroTokenBalance));
    account.withdraw(&t, 60).unwrap();
    account.unregister(&t).unwrap();
    assert_eq!(account.get_balance(&t), None);
}

#[test]
fn account_storage() {
    let mut account = Account::new(&"alice".to_string());
    assert_eq!(INIT_ACCOUNT_STORAGE, 102);
    assert_eq!(Account::min_storage_usage(10), Ok(1020));
    assert_eq!(account.storage_usage(10), Ok(1020));
    account.register(&vec!["a".to_string(), "b".to_string(), "a".to_string()]);
    assert_eq!(account.get_balance(&"a".to_string()), Some(0));
    // each token entry costs 64 + 68 + 16 bytes
    assert_eq!(account.storage_usage(10), Ok((102 + 2 * 148) * 10));
    assert_eq!(account.assert_storage_usage(10), Err(ExchangeError::InsufficientStorage));
    account.near_amount = 5000;
    assert!(account.assert_storage_usage(10).is_ok());
    assert_eq!(account.storage_available(10), Ok(5000 - 3980));
    assert_eq!(account.storage_usage(u128::MAX), Err(ExchangeError::ArithmeticOverflow));
}
