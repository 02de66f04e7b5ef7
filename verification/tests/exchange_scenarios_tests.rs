use ref_exchange::account_deposit::{Account, INIT_ACCOUNT_STORAGE};
use ref_exchange::action::{Action, SwapAction};
use ref_exchange::contract::Contract;
use ref_exchange::errors::ExchangeError;
use ref_exchange::event::RunningState;
use ref_exchange::token_receiver::{TokenReceiverMessage, TransferOutcome};

/// NEAR's price of a byte of storage, in yoctoNEAR.
const BYTE_COST: u128 = 10_000_000_000_000_000_000;

fn s(x: &str) -> String {
    x.to_string()
}

fn to_yocto(n: u128) -> u128 {
    n * 10u128.pow(24)
}

/// The exchange runs under the owner's account in these scenarios.
fn exchange() -> String {
    s("alice")
}

fn setup_contract() -> Contract {
    Contract::new(s("alice"), s("boost_farm"), s("burrowland"), 2000, 0).unwrap()
}

/// Opens the account with 1 NEAR of storage where it has none, registers the tokens and
/// sends each amount in.
fn deposit_tokens(c: &mut Contract, account: &mut Account, name: &str, token_amounts: &[(&str, u128)]) {
    if account.near_amount == 0 {
        account.storage_deposit(false, to_yocto(1), false, BYTE_COST).unwrap();
    }
    let tokens: Vec<String> = token_amounts.iter().map(|(t, _)| s(t)).collect();
    c.register_tokens(1, account, &tokens).unwrap();
    for (token, amount) in token_amounts {
        assert!(matches!(
            c.ft_on_transfer(&s(name), account, true, &s(token), *amount, None, &exchange(), 0),
            Ok(TransferOutcome::Deposited)
        ));
    }
}

/// The owner whitelists the tokens, danny adds a pool of fee 25 over them and puts the amounts
/// in.
fn create_pool_with_liquidity(c: &mut Contract, danny: &mut Account, token_amounts: &[(&str, u128)]) -> u64 {
    let tokens: Vec<String> = token_amounts.iter().map(|(t, _)| s(t)).collect();
    c.extend_whitelisted_tokens(&s("alice"), 1, tokens.clone()).unwrap();
    let pool_id = c.add_simple_pool(tokens, 25, &exchange()).unwrap();
    deposit_tokens(c, danny, "danny", token_amounts);
    let amounts: Vec<u128> = token_amounts.iter().map(|(_, a)| *a).collect();
    c.add_liquidity(danny, &s("danny"), pool_id, amounts, None, to_yocto(7) / 10_000).unwrap();
    pool_id
}

fn swap_action(token_in: &str, amount_in: Option<u128>, token_out: &str, min_amount_out: u128) -> SwapAction {
    SwapAction { pool_id: 0, token_in: s(token_in), amount_in, token_out: s(token_out), min_amount_out }
}

#[test]
fn test_liquidity() {
    let mut c = setup_contract();
    let mut danny = Account::new(&s("danny"));
    deposit_tokens(&mut c, &mut danny, "danny", &[("bob", to_yocto(100)), ("charlie", to_yocto(100))]);
    let id = c.add_simple_pool(vec![s("bob"), s("charlie")], 25, &exchange()).unwrap();
    c.add_liquidity(&mut danny, &s("danny"), id, vec![to_yocto(50), to_yocto(10)], None, to_yocto(7) / 10_000).unwrap();
    c.add_liquidity(&mut danny, &s("danny"), id, vec![to_yocto(50), to_yocto(50)], None, to_yocto(7) / 10_000).unwrap();
    c.remove_liquidity(&mut danny, &s("danny"), id, to_yocto(1), vec![1, 1]).unwrap();
    // what the pool holds and what danny holds add up to what he deposited
    let amounts = c.get_pool(id, 0).unwrap().amounts;
    let deposit1 = c.get_deposit(Some(&danny), &s("bob"));
    let deposit2 = c.get_deposit(Some(&danny), &s("charlie"));
    assert_eq!(amounts[0] + deposit1, to_yocto(100));
    assert_eq!(amounts[1] + deposit2, to_yocto(100));
}

#[test]
fn test_add_liquidity_rounding() {
    let mut c = setup_contract();
    let mut danny = Account::new(&s("danny"));
    deposit_tokens(&mut c, &mut danny, "danny", &[("bob", to_yocto(100)), ("charlie", to_yocto(100))]);
    let id = c.add_simple_pool(vec![s("bob"), s("charlie")], 25, &exchange()).unwrap();
    c.add_liquidity(&mut danny, &s("danny"), id, vec![1000, 1000], None, to_yocto(7) / 10_000).unwrap();
    assert_eq!(1000000000000000000000000u128, c.get_pool(id, 0).unwrap().shares_total_supply);

    let mut eugene = Account::new(&s("eugene"));
    deposit_tokens(&mut c, &mut eugene, "eugene", &[("bob", to_yocto(100)), ("charlie", to_yocto(100))]);
    c.add_liquidity(&mut eugene, &s("eugene"), id, vec![2, 2], None, to_yocto(1)).unwrap();
    assert_eq!(Ok(1000000000000000000000u128), c.get_pool_shares(id, &s("eugene")));

    let pool_info = c.get_pool(id, 0).unwrap();
    assert_eq!(1001000000000000000000000u128, pool_info.shares_total_supply);
    assert_eq!(vec![1002, 1002], pool_info.amounts);

    let removed = c.remove_liquidity(&mut eugene, &s("eugene"), id, 1000000000000000000000u128 - 1, vec![0, 0]).unwrap();
    assert_eq!(vec![1, 1], removed);

    let pool_info = c.get_pool(id, 0).unwrap();
    assert_eq!(1000000000000000000000001u128, pool_info.shares_total_supply);
    assert_eq!(vec![1001, 1001], pool_info.amounts);

    c.add_liquidity(&mut eugene, &s("eugene"), id, vec![50, 50], None, to_yocto(1)).unwrap();
    assert_eq!(Ok(48951048951048951048952u128), c.get_pool_shares(id, &s("eugene")));

    let pool_info = c.get_pool(id, 0).unwrap();
    assert_eq!(vec![1050, 1050], pool_info.amounts);

    let removed = c.remove_liquidity(&mut eugene, &s("eugene"), id, 48951048951048951048952u128 - 1, vec![0, 0]).unwrap();
    assert_eq!(vec![48, 48], removed);

    let pool_info = c.get_pool(id, 0).unwrap();
    assert_eq!(1000000000000000000000001u128, pool_info.shares_total_supply);
    assert_eq!(vec![1002, 1002], pool_info.amounts);
}

#[test]
fn adding_zero_amounts_is_refused() {
    let mut c = setup_contract();
    let mut danny = Account::new(&s("danny"));
    deposit_tokens(&mut c, &mut danny, "danny", &[("bob", to_yocto(1000000)), ("charlie", to_yocto(1000000))]);
    let id = c.add_simple_pool(vec![s("bob"), s("charlie")], 1, &exchange()).unwrap();
    assert_eq!(
        c.add_liquidity(&mut danny, &s("danny"), id, vec![0, 0], None, to_yocto(7) / 10_000),
        Err(ExchangeError::ZeroAmount)
    );
    // a later deposit whose share rounds to nothing is refused too
    c.add_liquidity(&mut danny, &s("danny"), id, vec![1000, 1000], None, 1).unwrap();
    assert_eq!(c.add_liquidity(&mut danny, &s("danny"), id, vec![1, 1], None, 1), Err(ExchangeError::ZeroAmount));
    assert_eq!(c.get_pool(id, 0).unwrap().amounts, vec![1000, 1000]);
}

#[test]
fn test_auto_whitelisted_postfix() {
    let mut c = setup_contract();
    let mut user = Account::new(&s("test_user"));
    user.storage_deposit(false, to_yocto(1), false, BYTE_COST).unwrap();
    c.auto_whitelisted_postfix = vec![s("abc.near"), s("def.near")];
    assert!(c.is_whitelisted_token(&s("test.abc.near")));
    assert!(c.is_whitelisted_token(&s("test.def.near")));
    assert!(!c.is_whitelisted_token(&s("test.xyz.near")));
    assert!(matches!(
        c.ft_on_transfer(&s("test_user"), &mut user, true, &s("test.abc.near"), 1_000_000, None, &exchange(), 0),
        Ok(TransferOutcome::Deposited)
    ));
    assert!(matches!(
        c.ft_on_transfer(&s("test_user"), &mut user, true, &s("test.def.near"), 1_000_000, None, &exchange(), 0),
        Ok(TransferOutcome::Deposited)
    ));
    let pool_id = c.add_simple_pool(vec![s("test.abc.near"), s("test.def.near")], 25, &exchange()).unwrap();
    c.add_liquidity(&mut user, &s("test_user"), pool_id, vec![10000, 10000], None, to_yocto(1) / 10).unwrap();
    let actions = vec![Action::Swap(SwapAction {
        pool_id,
        token_in: s("test.abc.near"),
        amount_in: Some(10),
        token_out: s("test.def.near"),
        min_amount_out: 0,
    })];
    assert!(c.execute_actions(&mut user, &actions, &None, 0, &exchange(), 0).is_ok());
    assert_eq!(user.get_balance(&s("test.abc.near")), Some(1_000_000 - 10000 - 10));
}

#[test]
fn test_deny_send_malicious_token_refused() {
    let mut c = setup_contract();
    let mut user = Account::new(&s("test_user"));
    user.storage_deposit(false, to_yocto(1), false, BYTE_COST).unwrap();
    assert!(matches!(
        c.ft_on_transfer(&s("test_user"), &mut user, true, &s("malicious"), 1_000, None, &exchange(), 0),
        Err(ExchangeError::TokenNotWhitelisted)
    ));
    assert_eq!(c.get_deposit(Some(&user), &s("malicious")), 0);
}

#[test]
fn test_send_user_specific_token() {
    let mut c = setup_contract();
    let mut user = Account::new(&s("test_user"));
    user.storage_deposit(false, to_yocto(1), false, BYTE_COST).unwrap();
    c.register_tokens(1, &mut user, &vec![s("custom")]).unwrap();
    assert!(matches!(
        c.ft_on_transfer(&s("test_user"), &mut user, true, &s("custom"), 1_000, None, &exchange(), 0),
        Ok(TransferOutcome::Deposited)
    ));
    let prev = user.storage_available(BYTE_COST).unwrap();
    assert_eq!(c.withdraw(&mut user, &s("custom"), 1_000, Some(true), 1), Ok(()));
    let new = user.storage_available(BYTE_COST).unwrap();
    // more available storage after withdrawing and unregistering the token
    assert!(new > prev);
    assert_eq!(user.get_balance(&s("custom")), None);
}

#[test]
fn withdraw_refusals() {
    let mut c = setup_contract();
    let mut user = Account::new(&s("test_user"));
    user.storage_deposit(false, to_yocto(1), false, BYTE_COST).unwrap();
    c.register_tokens(1, &mut user, &vec![s("custom")]).unwrap();
    c.ft_on_transfer(&s("test_user"), &mut user, true, &s("custom"), 1_000, None, &exchange(), 0).unwrap();
    assert_eq!(c.withdraw(&mut user, &s("custom"), 10, None, 0), Err(ExchangeError::OneYoctoRequired));
    assert_eq!(c.withdraw(&mut user, &s("custom"), 0, None, 1), Err(ExchangeError::IllegalWithdrawAmount));
    assert_eq!(c.withdraw(&mut user, &s("other"), 10, None, 1), Err(ExchangeError::TokenNotRegistered));
    assert_eq!(c.withdraw(&mut user, &s("custom"), 1_001, None, 1), Err(ExchangeError::NotEnoughTokens));
    // what is left stops the unregistering, and nothing moves
    assert_eq!(c.withdraw(&mut user, &s("custom"), 10, Some(true), 1), Err(ExchangeError::NonZeroTokenBalance));
    assert_eq!(user.get_balance(&s("custom")), Some(1_000));
    assert_eq!(c.withdraw(&mut user, &s("custom"), 10, None, 1), Ok(()));
    assert_eq!(user.get_balance(&s("custom")), Some(990));
    c.state = RunningState::Paused;
    assert_eq!(c.withdraw(&mut user, &s("custom"), 10, None, 1), Err(ExchangeError::ContractPaused));
}

#[test]
fn test_second_storage_deposit_works() {
    let mut account = Account::new(&s("alice"));
    assert_eq!(account.storage_deposit(false, to_yocto(1), false, BYTE_COST), Ok(0));
    assert_eq!(account.storage_deposit(true, to_yocto(1) / 1000, false, BYTE_COST), Ok(0));
    assert_eq!(account.near_amount, to_yocto(1) + to_yocto(1) / 1000);
}

#[test]
fn test_storage_registration_only() {
    let mut account = Account::new(&s("bob"));
    let min = INIT_ACCOUNT_STORAGE as u128 * BYTE_COST;
    assert_eq!(account.storage_deposit(false, to_yocto(1), true, BYTE_COST), Ok(to_yocto(1) - min));
    let total1 = account.near_amount;
    assert_eq!(account.storage_deposit(true, to_yocto(1), true, BYTE_COST), Ok(to_yocto(1)));
    let total2 = account.near_amount;
    assert_eq!(total1, total2);
    assert_eq!(total1, min);
}

#[test]
fn storage_deposit_less_than_min_storage_is_refused() {
    let mut account = Account::new(&s("bob"));
    assert_eq!(account.storage_deposit(false, 1, true, BYTE_COST), Err(ExchangeError::DepositLessThanMinStorage));
    assert_eq!(account.near_amount, 0);
    assert_eq!(ExchangeError::DepositLessThanMinStorage.message(), "E17: deposit less than min storage");
    // a registered account may top up by any amount
    assert_eq!(account.storage_deposit(true, 1, false, BYTE_COST), Ok(0));
    assert_eq!(account.near_amount, 1);
}

#[test]
fn test_roundtrip_swap() {
    let mut c = setup_contract();
    let mut danny = Account::new(&s("danny"));
    create_pool_with_liquidity(&mut c, &mut danny, &[("bob", to_yocto(5)), ("charlie", to_yocto(10))]);
    let mut user = Account::new(&s("test_user"));
    deposit_tokens(&mut c, &mut user, "test_user", &[("bob", 1_000_000)]);
    c.swap(
        &mut user,
        vec![swap_action("bob", Some(1_000), "charlie", 1), swap_action("charlie", None, "bob", 1)],
        &None,
        1,
        &exchange(),
        0,
    )
    .unwrap();
    // the round trip returns almost everything but the 0.25% fee
    assert_eq!(c.get_deposit(Some(&user), &s("bob")), 1_000_000 - 6);
}

fn instant_swap_setup() -> (Contract, Account) {
    let mut c = setup_contract();
    let mut danny = Account::new(&s("danny"));
    create_pool_with_liquidity(&mut c, &mut danny, &[("bob", to_yocto(5)), ("charlie", to_yocto(10))]);
    deposit_tokens(&mut c, &mut danny, "danny", &[("bob", to_yocto(100)), ("charlie", to_yocto(100))]);
    (c, danny)
}

#[test]
fn test_instant_swap() {
    let (c, danny) = instant_swap_setup();
    assert_eq!(c.get_deposit(Some(&danny), &s("bob")), to_yocto(100));
    assert_eq!(c.get_deposit(Some(&danny), &s("charlie")), to_yocto(100));
    assert_eq!(c.get_pool_total_shares(0), Ok(10u128.pow(24)));
    // the price from pool 0 for bob to charlie
    let expected_out = c.get_return(0, &s("bob"), to_yocto(1), &s("charlie"), &exchange(), 0).unwrap();
    assert_eq!(expected_out, 1663192997082117548978741);

    let (mut c, mut danny) = instant_swap_setup();
    let msg = TokenReceiverMessage::Execute {
        referral_id: None,
        actions: vec![Action::Swap(swap_action("bob", None, "charlie", 1))],
        client_echo: None,
        skip_unwrap_near: None,
    };
    match c.ft_on_transfer(&s("danny"), &mut danny, true, &s("bob"), to_yocto(1), Some(msg), &exchange(), 0) {
        Ok(TransferOutcome::Send { amounts, .. }) => {
            assert_eq!(amounts, vec![(s("charlie"), expected_out)]);
        },
        _ => panic!("expected the swapped tokens to be sent back"),
    }
    // the deposits themselves are untouched
    assert_eq!(c.get_deposit(Some(&danny), &s("bob")), to_yocto(100));
}

#[test]
fn test_owner() {
    let mut c = setup_contract();
    assert_eq!(c.set_owner(&s("alice"), 1, s("bob")), Ok(()));
    assert_eq!(s("bob"), c.get_owner());
    assert_eq!(c.retrieve_unmanaged_token(&s("bob"), 1, 1), Ok(()));
    assert_eq!(c.extend_guardians(&s("bob"), 1, vec![s("charlie")]), Ok(()));
    assert_eq!(vec![s("charlie")], c.get_guardians());
    assert_eq!(c.remove_guardians(&s("bob"), 1, vec![s("charlie")]), Ok(()));
    assert_eq!(0, c.get_guardians().len());
    assert_eq!(RunningState::Running, c.metadata(s("1")).state);
    assert_eq!(c.change_state(&s("bob"), 1, RunningState::Paused), Ok(()));
    assert_eq!(RunningState::Paused, c.metadata(s("1")).state);
    assert_eq!(2000, c.metadata(s("1")).admin_fee_bps);
    assert_eq!(c.modify_admin_fee(&s("bob"), 1, 70, 0), Ok(()));
    assert_eq!(70, c.metadata(s("1")).admin_fee_bps);
}

#[test]
fn test_view_pool() {
    let mut c = setup_contract();
    let mut danny = Account::new(&s("danny"));
    create_pool_with_liquidity(&mut c, &mut danny, &[("bob", to_yocto(5)), ("charlie", to_yocto(10))]);
    assert_eq!(c.add_stable_swap_pool(&s("alice"), vec![s("eugene"), s("fargo")], vec![18, 18], 25, 240, &exchange()), Ok(1));
    let pools = c.get_pools(0, 100, 0).unwrap();
    assert_eq!(pools.len(), 2);
    assert_eq!(pools[0].pool_kind, s("SIMPLE_POOL"));
    assert_eq!(pools[0].amounts, vec![to_yocto(5), to_yocto(10)]);
    assert_eq!(pools[1].pool_kind, s("STABLE_SWAP"));
    assert_eq!(pools[1].amp, 240);
    let pool = c.get_pool(0, 0).unwrap();
    assert_eq!(pool.token_account_ids, vec![s("bob"), s("charlie")]);
    assert_eq!(pool.total_fee, 25);
    let by_ids = c.get_pool_by_ids(&vec![0, 1], 0).unwrap();
    assert_eq!(by_ids.len(), 2);
    assert_eq!(by_ids[1].token_account_ids, vec![s("eugene"), s("fargo")]);
}

#[test]
fn quote_is_what_the_swap_pays() {
    let (c, _) = instant_swap_setup();
    let quote = c.get_return(0, &s("bob"), to_yocto(1), &s("charlie"), &exchange(), 0).unwrap();
    let (mut c, mut danny) = instant_swap_setup();
    let paid = c.swap(&mut danny, vec![swap_action("bob", Some(to_yocto(1)), "charlie", quote)], &None, 1, &exchange(), 0).unwrap();
    assert_eq!(paid, quote);
    assert_eq!(c.get_deposit(Some(&danny), &s("charlie")), to_yocto(100) + quote);
}

#[test]
fn unregistered_sender_is_refused_before_the_whitelist() {
    let mut c = setup_contract();
    let mut stranger = Account::new(&s("stranger"));
    assert!(matches!(
        c.ft_on_transfer(&s("stranger"), &mut stranger, false, &s("malicious"), 1_000, None, &exchange(), 0),
        Err(ExchangeError::AccountNotRegistered)
    ));
    // a chain of swaps needs no account of the sender
    let msg = TokenReceiverMessage::Execute { referral_id: None, actions: vec![], client_echo: None, skip_unwrap_near: None };
    assert!(matches!(
        c.ft_on_transfer(&s("stranger"), &mut stranger, false, &s("bob"), 1_000, Some(msg), &exchange(), 0),
        Err(ExchangeError::AtLeastOneSwap)
    ));
}

#[test]
fn storage_growth_is_paid_from_the_account() {
    let mut account = Account::new(&s("bob"));
    account.near_amount = 1_000 * BYTE_COST;
    assert_eq!(account.pay_storage_growth(500, 400, BYTE_COST), Ok(0));
    assert_eq!(account.pay_storage_growth(400, 500, BYTE_COST), Ok(100 * BYTE_COST));
    assert_eq!(account.near_amount, 900 * BYTE_COST);
    assert_eq!(account.pay_storage_growth(0, 901, BYTE_COST), Err(ExchangeError::InsufficientStorage));
    assert_eq!(account.near_amount, 900 * BYTE_COST);
    assert_eq!(ExchangeError::InsufficientStorage.message(), "E11: insufficient $NEAR storage deposit");
}
