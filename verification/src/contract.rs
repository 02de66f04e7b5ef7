//! The exchange: its pools and the rules by which accounts swap through them.
//!
//! Accounts are loaded by the caller and handed in; a refused request leaves nothing to be
//! kept, as the caller fails the whole request on any error.
use crate::account_deposit::{
    account_balance, can_deposit_all, can_withdraw_all, deposited_all, lemma_can_deposit_next, lemma_can_withdraw_next,
    lemma_deposited_all_step, lemma_withdrawn_all_step, shadow_of, storage_cost, withdrawn_all, Account,
};
use crate::action::{
    action_token_in, action_token_out, all_same_action_type, assert_all_same_action_type,
    get_tokens_in_actions, involved, Action, ActionResult, SwapAction,
};
use crate::admin_fee::AdminFees;
use crate::client_echo_limit::{contains_string, ends_with, ends_with_from};
use crate::errors::ExchangeError;
use crate::event::RunningState;
use crate::pool::{
    liquidity_added, liquidity_removed, pool_ledger, pool_swap_ok, pool_swap_out, pool_swap_post, pool_tokens, pool_wf,
    registered_pool, Pool,
};
use crate::pool_shares::{find_token, has_token, token_pos};
use crate::swap_volume::{internal_get_swap_volume_u256_vec_or_default, internal_update_swap_volume_u256_vec, SwapVolumeU256};
use crate::simple_pool::{fair_supply, share_payouts, simple_deposit_ok, simple_remove_ok, SimplePool};
use crate::pool_shares::balance_in;
use crate::shadow_record::free_under;
use crate::stable_swap::{stable_payouts, stable_remove_ok, StableSwapPool};
use crate::stable_swap::math::{MAX_AMP, MIN_AMP};
use crate::stable_swap::decimals_ok;
use crate::u256::u256_max;
use crate::utils::{check_token_duplicates, no_duplicates, views_of, SwapVolume, FEE_DIVISOR, INIT_SHARES_SUPPLY};
use vstd::hash_map::{HashMapWithView, StringHashMap};
use vstd::prelude::*;

verus! {

/// The state of the exchange that swaps go through.
pub struct Contract {
    /// Account of the owner.
    pub owner_id: String,
    /// Account of the boost_farm contract.
    pub boost_farm_id: String,
    /// Account of the burrowland contract.
    pub burrowland_id: String,
    /// Admin fee rate in total fee.
    pub admin_fee_bps: u32,
    /// List of all the pools.
    pub pools: Vec<Pool>,
    /// Set of whitelisted tokens by "owner".
    pub whitelisted_tokens: Vec<String>,
    /// Running state
    pub state: RunningState,
    /// Set of frozenlist tokens
    pub frozen_tokens: Vec<String>,
    /// Map of referrals and their fee rates
    pub referrals: StringHashMap<u32>,
    /// Token id suffixes that are whitelisted as a whole.
    pub auto_whitelisted_postfix: Vec<String>,
    /// 256-bit swap volumes of each pool.
    pub swap_volumes: HashMapWithView<u32, Vec<SwapVolumeU256>>,
    /// Set of guardians.
    pub guardians: Vec<String>,
    /// How often the cumulative share infos are recorded, in seconds.
    pub cumulative_info_record_interval_sec: u32,
    /// The wrapped NEAR token, where one is set.
    pub wnear_id: Option<String>,
}

/// Every pool is well formed.
pub open spec fn contract_wf(c: &Contract) -> bool {
    forall|i: int| 0 <= i < c.pools@.len() ==> #[trigger] pool_wf(&c.pools@[i])
}

/// Whether the token is among the frozen ones.
pub open spec fn is_frozen(c: &Contract, t: Seq<char>) -> bool {
    exists|i: int| 0 <= i < c.frozen_tokens@.len() && #[trigger] c.frozen_tokens@[i]@ == t
}

/// Whether the token may be traded without a deposit: whitelisted, or ending in a whitelisted
/// suffix.
pub open spec fn is_whitelisted(c: &Contract, t: Seq<char>) -> bool {
    (exists|i: int| 0 <= i < c.whitelisted_tokens@.len() && #[trigger] c.whitelisted_tokens@[i]@ == t)
    || (exists|i: int| 0 <= i < c.auto_whitelisted_postfix@.len() && ends_with(t, #[trigger] c.auto_whitelisted_postfix@[i]@))
}

/// The fees of a swap through the exchange `exchange_id` with an optional referral.
pub open spec fn swap_fees(c: &Contract, exchange_id: String, referral_info: Option<(String, u32)>) -> AdminFees {
    AdminFees { admin_fee_bps: c.admin_fee_bps, exchange_id, referral_info }
}

/// One swap action run for the account: it takes the action's own amount, or the previous
/// result, of the token in, and gets what the pool paid out; only that pool changed.
pub open spec fn swap_step(
    c: &Contract,
    fc: &Contract,
    a: &Account,
    fa: &Account,
    action: Action,
    prev: ActionResult,
    fees: AdminFees,
    now: u64,
    res: ActionResult,
) -> bool {
    match action {
        Action::Swap(s) => {
            let amount_in = swap_amount_in(s.amount_in, prev);
            &&& amount_in is Some
            &&& res is Amount
            &&& swapped_account(a, fa, s.token_in@, amount_in->0 as nat, s.token_out@, res->Amount_0 as nat)
            &&& s.pool_id < c.pools@.len()
            &&& fc.pools@.len() == c.pools@.len()
            &&& forall|j: int| 0 <= j < c.pools@.len() && j != s.pool_id ==> #[trigger] fc.pools@[j] == c.pools@[j]
            &&& pool_swap_post(&c.pools@[s.pool_id as int], &fc.pools@[s.pool_id as int], s.token_in@, amount_in->0 as nat, s.token_out@, s.min_amount_out as nat, fees, now, res->Amount_0 as nat)
        },
        Action::SwapByOutput(_) => false,
    }
}

/// A run of `actions` from `c`, `a` and `prev` to `fc`, `fa` and `res`, through the states
/// `cs`, the accounts `accts` and the results `results`, one swap step per action.
pub open spec fn actions_trace(
    c: &Contract,
    fc: &Contract,
    a: &Account,
    fa: &Account,
    actions: Seq<Action>,
    prev: ActionResult,
    fees: AdminFees,
    now: u64,
    res: ActionResult,
    cs: Seq<Contract>,
    accts: Seq<Account>,
    results: Seq<ActionResult>,
) -> bool {
    let n = actions.len();
    &&& cs.len() == n + 1
    &&& accts.len() == n + 1
    &&& results.len() == n + 1
    &&& cs[0] == *c
    &&& accts[0] == *a
    &&& results[0] == prev
    &&& cs[n as int] == *fc
    &&& accts[n as int] == *fa
    &&& results[n as int] == res
    &&& forall|k: int| 0 <= k < n ==> #[trigger] swap_step(&cs[k], &cs[k + 1], &accts[k], &accts[k + 1], actions[k], results[k], fees, now, results[k + 1])
}

/// Whether `actions` run, one swap after the other, from `c`, `a` and `prev` to `fc`, `fa`
/// and `res`.
pub open spec fn ran_actions(
    c: &Contract,
    fc: &Contract,
    a: &Account,
    fa: &Account,
    actions: Seq<Action>,
    prev: ActionResult,
    fees: AdminFees,
    now: u64,
    res: ActionResult,
) -> bool {
    exists|cs: Seq<Contract>, accts: Seq<Account>, results: Seq<ActionResult>|
        #[trigger] actions_trace(c, fc, a, fa, actions, prev, fees, now, res, cs, accts, results)
}

/// The 128-bit volumes a pool keeps of its own.
pub open spec fn pool_volumes(p: &Pool) -> Seq<SwapVolume> {
    match *p {
        Pool::SimplePool(s) => s.volumes@,
        Pool::StableSwapPool(s) => s.volumes@,
    }
}

/// How many 256-bit volume entries the exchange holds for pool `pool_id`: those recorded, or
/// else one per volume the pool keeps.
pub open spec fn vol_len(c: &Contract, pool_id: u64) -> nat {
    if c.swap_volumes@.contains_key(pool_id as u32) {
        c.swap_volumes@[pool_id as u32]@.len()
    } else {
        pool_volumes(&c.pools@[pool_id as int]).len()
    }
}

/// The 256-bit input volume of entry `i` of pool `pool_id`.
pub open spec fn vol_in(c: &Contract, pool_id: u64, i: int) -> nat {
    if c.swap_volumes@.contains_key(pool_id as u32) {
        c.swap_volumes@[pool_id as u32]@[i].input@
    } else {
        pool_volumes(&c.pools@[pool_id as int])[i].input as nat
    }
}

/// The 256-bit output volume of entry `i` of pool `pool_id`.
pub open spec fn vol_out(c: &Contract, pool_id: u64, i: int) -> nat {
    if c.swap_volumes@.contains_key(pool_id as u32) {
        c.swap_volumes@[pool_id as u32]@[i].output@
    } else {
        pool_volumes(&c.pools@[pool_id as int])[i].output as nat
    }
}

/// Whether the 256-bit volumes of pool `pool_id` can record a swap of `amount_in` of
/// `token_in` for `out` of `token_out`: both tokens in the pool, an entry for each (a simple
/// pool records both under the token in), and neither volume past 256 bits.
pub open spec fn volume_ok(c: &Contract, pool_id: u64, token_in: Seq<char>, amount_in: nat, token_out: Seq<char>, out: nat) -> bool {
    let p = c.pools@[pool_id as int];
    let tokens = pool_tokens(&p);
    let in_idx = token_pos(tokens, token_in);
    let out_idx = if p is SimplePool { in_idx } else { token_pos(tokens, token_out) };
    &&& has_token(tokens, token_in)
    &&& (p is SimplePool || has_token(tokens, token_out))
    &&& in_idx < vol_len(c, pool_id)
    &&& out_idx < vol_len(c, pool_id)
    &&& vol_in(c, pool_id, in_idx) + amount_in <= u256_max()
    &&& vol_out(c, pool_id, out_idx) + out <= u256_max()
}

/// Whether one action goes through for the account: a plain swap whose amount is known and
/// held, whose pool swap and volume recording go through, and whose payout fits the account's
/// balance of the token out.
pub open spec fn swap_action_ok(c: &Contract, a: &Account, action: Action, prev: ActionResult, fees: AdminFees, now: u64) -> bool {
    match action {
        Action::Swap(s) => {
            let amt = swap_amount_in(s.amount_in, prev);
            let pid = s.pool_id;
            let out = pool_swap_out(&c.pools@[pid as int], s.token_in@, amt->0 as nat, s.token_out@, s.min_amount_out as nat, fees, now);
            let mid = if s.token_in@ == s.token_out@ {
                Some((account_balance(a, s.token_in@)->0 - amt->0) as u128)
            } else {
                account_balance(a, s.token_out@)
            };
            &&& amt is Some
            &&& account_balance(a, s.token_in@) is Some
            &&& account_balance(a, s.token_in@)->0 >= amt->0
            &&& pid < c.pools@.len()
            &&& pool_swap_ok(&c.pools@[pid as int], s.token_in@, amt->0 as nat, s.token_out@, s.min_amount_out as nat, fees, now)
            &&& volume_ok(c, pid, s.token_in@, amt->0 as nat, s.token_out@, out)
            &&& match mid {
                Some(v) => v + out <= u128::MAX,
                None => true,
            }
        },
        Action::SwapByOutput(_) => false,
    }
}

/// A run of the first `k` of `actions` from `c`, `a` and `prev`, through the states `cs`, the
/// accounts `accts` and the results `results`, after which action `k` cannot go through.
pub open spec fn actions_stop(
    c: &Contract,
    a: &Account,
    actions: Seq<Action>,
    prev: ActionResult,
    fees: AdminFees,
    now: u64,
    k: int,
    cs: Seq<Contract>,
    accts: Seq<Account>,
    results: Seq<ActionResult>,
) -> bool {
    &&& 0 <= k < actions.len()
    &&& cs.len() == k + 1
    &&& accts.len() == k + 1
    &&& results.len() == k + 1
    &&& cs[0] == *c
    &&& accts[0] == *a
    &&& results[0] == prev
    &&& forall|j: int| 0 <= j < k ==> #[trigger] swap_step(&cs[j], &cs[j + 1], &accts[j], &accts[j + 1], actions[j], results[j], fees, now, results[j + 1])
    &&& !swap_action_ok(&cs[k], &accts[k], actions[k], results[k], fees, now)
}

/// Whether running `actions` one after the other from `c`, `a` and `prev` reaches an action
/// that cannot go through.
pub open spec fn run_stops(c: &Contract, a: &Account, actions: Seq<Action>, prev: ActionResult, fees: AdminFees, now: u64) -> bool {
    exists|k: int, cs: Seq<Contract>, accts: Seq<Account>, results: Seq<ActionResult>|
        #[trigger] actions_stop(c, a, actions, prev, fees, now, k, cs, accts, results)
}

/// Whether, with the referral the exchange makes of `referral_id`, running `actions` from
/// `c` and `a` reaches an action that cannot go through.
pub open spec fn stops_with_referral(c: &Contract, a: &Account, actions: Seq<Action>, referral_id: Option<String>, exchange_id: String, now: u64) -> bool {
    exists|ri: Option<(String, u32)>| referral_known(c, referral_id, ri)
        && #[trigger] run_stops(c, a, actions, ActionResult::Nothing, swap_fees(c, exchange_id, ri), now)
}

/// Whether, with the referral the exchange makes of `referral_id`, `actions` ran from `c` and
/// `a` to `fc` and `fa` with result `res`.
pub open spec fn ran_with_referral(c: &Contract, fc: &Contract, a: &Account, fa: &Account, actions: Seq<Action>, referral_id: Option<String>, exchange_id: String, now: u64, res: ActionResult) -> bool {
    exists|ri: Option<(String, u32)>| referral_known(c, referral_id, ri)
        && #[trigger] ran_actions(c, fc, a, fa, actions, ActionResult::Nothing, swap_fees(c, exchange_id, ri), now, res)
}

/// Plain swaps as actions.
pub open spec fn swap_actions(s: Seq<SwapAction>) -> Seq<Action> {
    s.map_values(|a: SwapAction| Action::Swap(a))
}

/// Whether `info` is what the exchange makes of `referral_id`: the referral and its fee rate
/// where the exchange knows it, none otherwise.
pub open spec fn referral_known(c: &Contract, referral_id: Option<String>, info: Option<(String, u32)>) -> bool {
    match referral_id {
        Some(rid) => if c.referrals@.contains_key(rid@) {
            info matches Some(x) && x.0@ == rid@ && x.1 == c.referrals@[rid@]
        } else {
            info is None
        },
        None => info is None,
    }
}

/// What a simple pool takes of a deposit of `given`: all of it for the first deposit, else
/// `pool[i] * fair / supply + 1` of each token.
pub open spec fn deposit_take(p: &SimplePool, given: Seq<u128>) -> Seq<u128> {
    if p.shares_total_supply == 0 {
        given
    } else {
        let fair = fair_supply(given, p.amounts@, p.shares_total_supply as nat, given.len());
        Seq::new(given.len(), |i: int| (p.amounts@[i] as nat * fair / (p.shares_total_supply as nat) + 1) as u128)
    }
}

/// Whether adding `given` to the pool from the account goes through: a simple pool with no
/// frozen token, which takes the deposit, each amount taken at least its minimum, and an
/// account that holds what is taken.
pub open spec fn pool_deposit_ok(c: &Contract, p: &Pool, a: &Account, sender: Seq<char>, given: Seq<u128>, mins: Option<Vec<u128>>) -> bool {
    let tokens = pool_tokens(p);
    &&& *p is SimplePool
    &&& forall|i: int| 0 <= i < tokens.len() ==> !is_frozen(c, #[trigger] tokens[i]@)
    &&& simple_deposit_ok(&p->SimplePool_0, given, sender)
    &&& mins matches Some(m) ==> forall|i: int| 0 <= i < given.len() && i < m@.len()
        ==> #[trigger] deposit_take(&p->SimplePool_0, given)[i] >= m@[i]
    &&& can_withdraw_all(a, tokens, deposit_take(&p->SimplePool_0, given), tokens.len() as int)
}

/// Whether burning `shares` of the pool for the account goes through: no frozen token, a
/// minimum for each token, shares the account can burn within those minimums, and balances
/// that take the payouts.
pub open spec fn pool_withdraw_ok(c: &Contract, p: &Pool, a: &Account, sender: Seq<char>, shares: nat, mins: Seq<u128>) -> bool {
    let tokens = pool_tokens(p);
    &&& forall|i: int| 0 <= i < tokens.len() ==> !is_frozen(c, #[trigger] tokens[i]@)
    &&& match *p {
        Pool::SimplePool(s) => {
            &&& mins.len() >= tokens.len()
            &&& simple_remove_ok(&s, sender, shares, mins)
            &&& can_deposit_all(a, tokens, share_payouts(&s, shares), tokens.len() as int)
        },
        Pool::StableSwapPool(s) => {
            &&& stable_remove_ok(&s, sender, shares, mins)
            &&& can_deposit_all(a, tokens, stable_payouts(&s, shares), tokens.len() as int)
        },
    }
}

/// What a simple pool took of each token in a deposit: the growth of its amounts.
pub open spec fn taken(p: &Pool, fp: &Pool) -> Seq<u128> {
    match (*p, *fp) {
        (Pool::SimplePool(a), Pool::SimplePool(b)) => Seq::new(a.amounts@.len(), |i: int| (b.amounts@[i] - a.amounts@[i]) as u128),
        _ => Seq::empty(),
    }
}

/// The exchange and the account after `sender` added liquidity to pool `pool_id` from its
/// deposits: no token of the pool frozen, the pool took `taken` of `given` and minted
/// `shares`, each amount taken at least its minimum where one is given, the account paid what
/// the pool took, and every other pool is as it was.
pub open spec fn added_liquidity(
    c: &Contract,
    fc: &Contract,
    a: &Account,
    fa: &Account,
    sender: Seq<char>,
    pool_id: int,
    given: Seq<u128>,
    mins: Option<Vec<u128>>,
    shares: nat,
) -> bool {
    let p = c.pools@[pool_id];
    let fp = fc.pools@[pool_id];
    let tokens = pool_tokens(&p);
    let take = taken(&p, &fp);
    &&& 0 <= pool_id < c.pools@.len()
    &&& fc.pools@.len() == c.pools@.len()
    &&& forall|j: int| 0 <= j < c.pools@.len() && j != pool_id ==> #[trigger] fc.pools@[j] == c.pools@[j]
    &&& forall|i: int| 0 <= i < tokens.len() ==> !is_frozen(c, #[trigger] tokens[i]@)
    &&& liquidity_added(&p, &fp, sender, given, take, shares)
    &&& mins matches Some(m) ==> forall|i: int| 0 <= i < take.len() && i < m@.len() ==> #[trigger] take[i] >= m@[i]
    &&& withdrawn_all(a, fa, tokens, take, tokens.len() as int)
}

/// The exchange and the account after `sender` burnt `shares` of pool `pool_id` for `out`:
/// no token of the pool frozen, the pool paid out its part of every token, the account got
/// them, and every other pool is as it was.
pub open spec fn removed_liquidity(
    c: &Contract,
    fc: &Contract,
    a: &Account,
    fa: &Account,
    sender: Seq<char>,
    pool_id: int,
    shares: nat,
    mins: Seq<u128>,
    out: Seq<u128>,
) -> bool {
    let p = c.pools@[pool_id];
    let tokens = pool_tokens(&p);
    &&& 0 <= pool_id < c.pools@.len()
    &&& fc.pools@.len() == c.pools@.len()
    &&& forall|j: int| 0 <= j < c.pools@.len() && j != pool_id ==> #[trigger] fc.pools@[j] == c.pools@[j]
    &&& forall|i: int| 0 <= i < tokens.len() ==> !is_frozen(c, #[trigger] tokens[i]@)
    &&& liquidity_removed(&p, &fc.pools@[pool_id], sender, shares, mins, out)
    &&& out.len() == tokens.len()
    &&& deposited_all(a, fa, tokens, out, tokens.len() as int)
}

/// The balance of a token, zero where it is not registered.
pub open spec fn balance_or_zero(a: &Account, t: Seq<char>) -> nat {
    match account_balance(a, t) {
        Some(v) => v as nat,
        None => 0,
    }
}

/// The account after `amount_in` of `token_in` went into a swap that paid `out` of
/// `token_out`; every other balance stays.
pub open spec fn swapped_account(a: &Account, fa: &Account, token_in: Seq<char>, amount_in: nat, token_out: Seq<char>, out: nat) -> bool {
    &&& account_balance(a, token_in) is Some
    &&& account_balance(a, token_in)->0 >= amount_in
    &&& token_in != token_out ==> account_balance(fa, token_in) == Some((account_balance(a, token_in)->0 - amount_in) as u128)
    &&& token_in != token_out ==> account_balance(fa, token_out) == Some((balance_or_zero(a, token_out) + out) as u128)
    &&& forall|t: Seq<char>| t != token_in && t != token_out ==> #[trigger] account_balance(fa, t) == account_balance(a, t)
    &&& fa.near_amount == a.near_amount
}

/// The amount a swap takes: its own, or else what the step before gave.
pub open spec fn swap_amount_in(amount_in: Option<u128>, prev: ActionResult) -> Option<u128> {
    match amount_in {
        Some(x) => Some(x),
        None => match prev {
            ActionResult::Amount(v) => Some(v),
            ActionResult::Nothing => None,
        },
    }
}

impl Contract {
    /// An exchange owned by `owner_id`, running, with no pools and an admin fee of
    /// `exchange_fee + referral_fee` basis points.
    pub fn new(owner_id: String, boost_farm_id: String, burrowland_id: String, exchange_fee: u32, referral_fee: u32) -> (r: Result<Contract, ExchangeError>)
        ensures
            exchange_fee + referral_fee > u32::MAX ==> r == Err::<Contract, ExchangeError>(ExchangeError::ArithmeticOverflow),
            exchange_fee + referral_fee <= u32::MAX ==> (r matches Ok(c) && {
                &&& contract_wf(&c)
                &&& c.owner_id == owner_id
                &&& c.boost_farm_id == boost_farm_id
                &&& c.burrowland_id == burrowland_id
                &&& c.admin_fee_bps == exchange_fee + referral_fee
                &&& c.pools@.len() == 0
                &&& c.state == RunningState::Running
                &&& c.whitelisted_tokens@.len() == 0
                &&& c.frozen_tokens@.len() == 0
                &&& c.guardians@.len() == 0
                &&& c.auto_whitelisted_postfix@.len() == 0
                &&& c.referrals@ == Map::<Seq<char>, u32>::empty()
                &&& c.cumulative_info_record_interval_sec == 720
                &&& c.wnear_id is None
            }),
    {
        let admin_fee_bps = match exchange_fee.checked_add(referral_fee) {
            Some(v) => v,
            None => {
                return Err(ExchangeError::ArithmeticOverflow);
            },
        };
        proof {
            broadcast use vstd::std_specs::hash::axiom_u32_obeys_hash_table_key_model;
        }
        Ok(Contract {
            owner_id,
            boost_farm_id,
            burrowland_id,
            admin_fee_bps,
            pools: Vec::new(),
            whitelisted_tokens: Vec::new(),
            state: RunningState::Running,
            frozen_tokens: Vec::new(),
            referrals: StringHashMap::new(),
            auto_whitelisted_postfix: Vec::new(),
            swap_volumes: HashMapWithView::new(),
            guardians: Vec::new(),
            cumulative_info_record_interval_sec: 12 * 60,
            wnear_id: None,
        })
    }

    /// What the storage a call took costs, from the storage used before and after it, and
    /// what is left of the attached deposit to refund: `(cost, refund)`. Refused where the
    /// deposit does not cover the cost.
    pub fn internal_check_storage(&self, prev_storage: u64, storage_usage: u64, byte_cost: u128, attached_deposit: u128) -> (r: Result<(u128, u128), ExchangeError>)
        ensures
            ({
                let cost: int = if storage_usage >= prev_storage { (storage_usage - prev_storage) * byte_cost } else { 0 };
                &&& cost <= u128::MAX && cost <= attached_deposit ==> r == Ok::<(u128, u128), ExchangeError>((cost as u128, (attached_deposit - cost) as u128))
                &&& cost <= u128::MAX && cost > attached_deposit ==> r == Err::<(u128, u128), ExchangeError>(ExchangeError::StorageDepositShort)
                &&& cost > u128::MAX ==> r == Err::<(u128, u128), ExchangeError>(ExchangeError::ArithmeticOverflow)
            }),
    {
        let taken: u64 = if storage_usage >= prev_storage { storage_usage - prev_storage } else { 0 };
        let cost = match (taken as u128).checked_mul(byte_cost) {
            Some(c) => c,
            None => {
                return Err(ExchangeError::ArithmeticOverflow);
            },
        };
        if cost > attached_deposit {
            return Err(ExchangeError::StorageDepositShort);
        }
        Ok((cost, attached_deposit - cost))
    }

    /// Refuses requests while the exchange is paused.
    pub fn assert_contract_running(&self) -> (r: Result<(), ExchangeError>)
        ensures
            self.state == RunningState::Running ==> r is Ok,
            self.state != RunningState::Running ==> r == Err::<(), ExchangeError>(ExchangeError::ContractPaused),
    {
        match self.state {
            RunningState::Running => Ok(()),
            _ => Err(ExchangeError::ContractPaused),
        }
    }

    /// Refuses requests that involve a frozen token.
    pub fn assert_no_frozen_tokens(&self, tokens: &Vec<String>) -> (r: Result<(), ExchangeError>)
        ensures
            r is Ok <==> forall|i: int| 0 <= i < tokens@.len() ==> !is_frozen(self, #[trigger] tokens@[i]@),
            r is Err ==> r == Err::<(), ExchangeError>(ExchangeError::FrozenToken),
    {
        let mut i: usize = 0;
        while i < tokens.len()
            invariant
                i <= tokens.len(),
                forall|j: int| 0 <= j < i ==> !is_frozen(self, #[trigger] tokens@[j]@),
            decreases tokens.len() - i,
        {
            if contains_string(&self.frozen_tokens, &tokens[i], self.frozen_tokens.len()) {
                return Err(ExchangeError::FrozenToken);
            }
            i = i + 1;
        }
        Ok(())
    }

    /// Whether the token may be traded without a deposit.
    pub fn is_whitelisted_token(&self, token_id: &String) -> (r: bool)
        ensures
            r == is_whitelisted(self, token_id@),
    {
        if contains_string(&self.whitelisted_tokens, token_id, self.whitelisted_tokens.len()) {
            return true;
        }
        let mut i: usize = 0;
        while i < self.auto_whitelisted_postfix.len()
            invariant
                i <= self.auto_whitelisted_postfix.len(),
                !(exists|j: int| 0 <= j < self.whitelisted_tokens@.len() && #[trigger] self.whitelisted_tokens@[j]@ == token_id@),
                forall|j: int| 0 <= j < i ==> !ends_with(token_id@, #[trigger] self.auto_whitelisted_postfix@[j]@),
            decreases self.auto_whitelisted_postfix.len() - i,
        {
            let postfix = self.auto_whitelisted_postfix[i].as_str();
            let hit = ends_with_from(token_id.as_str(), postfix, 0);
            assert(postfix@.subrange(0, postfix@.len() as int) =~= postfix@);
            if hit {
                return true;
            }
            i = i + 1;
        }
        false
    }

    /// Swaps given amount_in of token_in into token_out via given pool, and records the
    /// volumes. Should be at least min_amount_out or swap will fail (prevents front running
    /// and other slippage issues).
    #[verifier::rlimit(80)]
    #[verifier::spinoff_prover]
    pub fn internal_pool_swap(
        &mut self,
        pool_id: u64,
        token_in: &String,
        amount_in: u128,
        token_out: &String,
        min_amount_out: u128,
        referral_info: &Option<(String, u32)>,
        exchange_id: &String,
        now: u64,
    ) -> (r: Result<u128, ExchangeError>)
        requires
            contract_wf(old(self)),
        ensures
            contract_wf(final(self)),
            final(self).pools@.len() == old(self).pools@.len(),
            pool_id >= old(self).pools@.len() ==> r == Err::<u128, ExchangeError>(ExchangeError::NoPool),
            r is Ok <==> pool_id < old(self).pools@.len()
                && pool_swap_ok(&old(self).pools@[pool_id as int], token_in@, amount_in as nat, token_out@, min_amount_out as nat, swap_fees(old(self), *exchange_id, *referral_info), now)
                && volume_ok(old(self), pool_id, token_in@, amount_in as nat, token_out@,
                    pool_swap_out(&old(self).pools@[pool_id as int], token_in@, amount_in as nat, token_out@, min_amount_out as nat, swap_fees(old(self), *exchange_id, *referral_info), now)),
            r matches Ok(out) ==> {
                &&& out == pool_swap_out(&old(self).pools@[pool_id as int], token_in@, amount_in as nat, token_out@, min_amount_out as nat, swap_fees(old(self), *exchange_id, *referral_info), now)
                &&& pool_id < old(self).pools@.len()
                &&& final(self).pools@.len() == old(self).pools@.len()
                &&& forall|j: int| 0 <= j < old(self).pools@.len() && j != pool_id ==> #[trigger] final(self).pools@[j] == old(self).pools@[j]
                &&& pool_swap_post(&old(self).pools@[pool_id as int], &final(self).pools@[pool_id as int], token_in@, amount_in as nat, token_out@, min_amount_out as nat, swap_fees(old(self), *exchange_id, *referral_info), now, out as nat)
            },
            final(self).admin_fee_bps == old(self).admin_fee_bps,
            final(self).state == old(self).state,
            final(self).frozen_tokens@ == old(self).frozen_tokens@,
            final(self).whitelisted_tokens@ == old(self).whitelisted_tokens@,
            final(self).auto_whitelisted_postfix@ == old(self).auto_whitelisted_postfix@,
            final(self).referrals@ == old(self).referrals@,
            final(self).owner_id == old(self).owner_id,
            final(self).boost_farm_id == old(self).boost_farm_id,
            final(self).burrowland_id == old(self).burrowland_id,
            final(self).guardians@ == old(self).guardians@,
    {
        if pool_id >= self.pools.len() as u64 {
            return Err(ExchangeError::NoPool);
        }
        let idx = pool_id as usize;
        let referral_copy: Option<(String, u32)> = match referral_info {
            Some((rid, f)) => Some((rid.clone(), *f)),
            None => None,
        };
        let fees = AdminFees { admin_fee_bps: self.admin_fee_bps, exchange_id: exchange_id.clone(), referral_info: referral_copy };
        assert(fees == swap_fees(old(self), *exchange_id, *referral_info));
        let mut pool = self.pools.remove(idx);
        let ghost p0 = pool;
        assert(p0 == old(self).pools@[idx as int]);
        assert(pool_wf(&pool));
        // Replace pool.volumes for recording.
        let sv_u256s = internal_get_swap_volume_u256_vec_or_default(&self.swap_volumes, pool_id, &pool.get_volumes());
        let result = pool.swap(token_in, amount_in, token_out, min_amount_out, &fees, now);
        let amount_out = match result {
            Ok(v) => v,
            Err(e) => {
                self.pools.insert(idx, pool);
                proof {
                    assert forall|j: int| 0 <= j < self.pools@.len() implies #[trigger] pool_wf(&self.pools@[j]) by {
                        if j != idx {
                            assert(self.pools@[j] == old(self).pools@[j]);
                        }
                    }
                }
                return Err(e);
            },
        };
        let tokens = pool.tokens();
        let in_pos = find_token(tokens, token_in);
        let out_pos = match &pool {
            Pool::SimplePool(_) => in_pos,
            _ => find_token(tokens, token_out),
        };
        let vol = match (in_pos, out_pos) {
            (Some(in_idx), Some(out_idx)) => if in_idx < sv_u256s.len() && out_idx < sv_u256s.len() {
                internal_update_swap_volume_u256_vec(&mut self.swap_volumes, pool_id, in_idx, out_idx, amount_in, amount_out, sv_u256s)
            } else {
                Err(ExchangeError::InvalidVolumes)
            },
            _ => Err(ExchangeError::MissingToken),
        };
        let ghost p1 = pool;
        self.pools.insert(idx, pool);
        proof {
            assert(self.pools@ =~= old(self).pools@.update(idx as int, p1));
            assert forall|j: int| 0 <= j < self.pools@.len() implies #[trigger] pool_wf(&self.pools@[j]) by {
                if j != idx {
                    assert(self.pools@[j] == old(self).pools@[j]);
                }
            }
        }
        vol?;
        Ok(amount_out)
    }

    /// Runs one swap for the account: takes the amount in (its own, or the previous step's
    /// result) from the account, swaps it in the pool and credits the amount out.
    /// Swaps by output are not offered by these pools.
    pub fn internal_execute_action(
        &mut self,
        account: &mut Account,
        referral_info: &Option<(String, u32)>,
        action: &Action,
        prev_result: ActionResult,
        exchange_id: &String,
        now: u64,
    ) -> (r: Result<ActionResult, ExchangeError>)
        requires
            contract_wf(old(self)),
        ensures
            contract_wf(final(self)),
            final(self).pools@.len() == old(self).pools@.len(),
            *action is SwapByOutput ==> r == Err::<ActionResult, ExchangeError>(ExchangeError::Unsupported),
            match *action {
                Action::Swap(a) => {
                    &&& swap_amount_in(a.amount_in, prev_result) is None ==> r == Err::<ActionResult, ExchangeError>(ExchangeError::WrongActionResult)
                    &&& r matches Ok(res) ==> {
                        let amount_in = swap_amount_in(a.amount_in, prev_result)->0;
                        &&& res matches ActionResult::Amount(out)
                        &&& swapped_account(old(account), final(account), a.token_in@, amount_in as nat, a.token_out@, res->Amount_0 as nat)
                        &&& a.pool_id < old(self).pools@.len()
                        &&& final(self).pools@.len() == old(self).pools@.len()
                        &&& forall|j: int| 0 <= j < old(self).pools@.len() && j != a.pool_id ==> #[trigger] final(self).pools@[j] == old(self).pools@[j]
                        &&& pool_swap_post(&old(self).pools@[a.pool_id as int], &final(self).pools@[a.pool_id as int], a.token_in@, amount_in as nat, a.token_out@, a.min_amount_out as nat, swap_fees(old(self), *exchange_id, *referral_info), now, res->Amount_0 as nat)
                    }
                },
                Action::SwapByOutput(_) => true,
            },
            r matches Ok(res) ==> swap_step(old(self), final(self), old(account), final(account), *action, prev_result, swap_fees(old(self), *exchange_id, *referral_info), now, res),
            r is Ok <==> swap_action_ok(old(self), old(account), *action, prev_result, swap_fees(old(self), *exchange_id, *referral_info), now),
            final(self).admin_fee_bps == old(self).admin_fee_bps,
            final(self).state == old(self).state,
            final(self).frozen_tokens@ == old(self).frozen_tokens@,
            final(self).whitelisted_tokens@ == old(self).whitelisted_tokens@,
            final(self).auto_whitelisted_postfix@ == old(self).auto_whitelisted_postfix@,
            final(self).referrals@ == old(self).referrals@,
            final(self).owner_id == old(self).owner_id,
            final(self).boost_farm_id == old(self).boost_farm_id,
            final(self).burrowland_id == old(self).burrowland_id,
            final(self).guardians@ == old(self).guardians@,
    {
        match action {
            Action::Swap(swap_action) => {
                let amount_in = match swap_action.amount_in {
                    Some(v) => v,
                    None => prev_result.to_amount()?,
                };
                account.withdraw(&swap_action.token_in, amount_in)?;
                let ghost mid = *account;
                let amount_out = self.internal_pool_swap(
                    swap_action.pool_id,
                    &swap_action.token_in,
                    amount_in,
                    &swap_action.token_out,
                    swap_action.min_amount_out,
                    referral_info,
                    exchange_id,
                    now,
                )?;
                account.deposit(&swap_action.token_out, amount_out)?;
                proof {
                    let t_in = swap_action.token_in@;
                    let t_out = swap_action.token_out@;
                    assert forall|t: Seq<char>| t != t_in && t != t_out implies #[trigger] account_balance(account, t) == account_balance(old(account), t) by {
                        assert(account_balance(&mid, t) == account_balance(old(account), t));
                    }
                    if t_in != t_out {
                        assert(account_balance(&mid, t_out) == account_balance(old(account), t_out));
                        assert(account_balance(&mid, t_in) == Some((account_balance(old(account), t_in)->0 - amount_in) as u128));
                        assert(account_balance(account, t_in) == account_balance(&mid, t_in));
                    }
                }
                Ok(ActionResult::Amount(amount_out))
            },
            Action::SwapByOutput(_) => Err(ExchangeError::Unsupported),
        }
    }

    /// Runs a sequence of actions of one kind for the account, each plain swap taking the
    /// previous one's result where it names no amount of its own.
    pub fn internal_execute_actions(
        &mut self,
        account: &mut Account,
        referral_info: &Option<(String, u32)>,
        actions: &Vec<Action>,
        prev_result: ActionResult,
        exchange_id: &String,
        now: u64,
    ) -> (r: Result<ActionResult, ExchangeError>)
        requires
            contract_wf(old(self)),
        ensures
            contract_wf(final(self)),
            !all_same_action_type(actions@) ==> r == Err::<ActionResult, ExchangeError>(ExchangeError::InvalidActionType),
            all_same_action_type(actions@) && (exists|t: Seq<char>| involved(actions@, t) && is_frozen(old(self), t)) ==> r == Err::<ActionResult, ExchangeError>(ExchangeError::FrozenToken),
            r is Ok ==> actions@.len() > 0 && actions@[0] is Swap && r->Ok_0 is Amount,
            r is Ok ==> forall|t: Seq<char>| !involved(actions@, t) ==> #[trigger] account_balance(final(account), t) == account_balance(old(account), t),
            r is Ok ==> final(account).near_amount == old(account).near_amount,
            r matches Ok(res) ==> ran_actions(old(self), final(self), old(account), final(account), actions@, prev_result, swap_fees(old(self), *exchange_id, *referral_info), now, res),
            all_same_action_type(actions@) && !(exists|t: Seq<char>| involved(actions@, t) && is_frozen(old(self), t)) && actions@.len() > 0 && actions@[0] is Swap
                && r is Err ==> run_stops(old(self), old(account), actions@, prev_result, swap_fees(old(self), *exchange_id, *referral_info), now),
            final(self).pools@.len() == old(self).pools@.len(),
            final(self).admin_fee_bps == old(self).admin_fee_bps,
            final(self).state == old(self).state,
            final(self).frozen_tokens@ == old(self).frozen_tokens@,
            final(self).whitelisted_tokens@ == old(self).whitelisted_tokens@,
            final(self).auto_whitelisted_postfix@ == old(self).auto_whitelisted_postfix@,
            final(self).referrals@ == old(self).referrals@,
            final(self).owner_id == old(self).owner_id,
            final(self).boost_farm_id == old(self).boost_farm_id,
            final(self).burrowland_id == old(self).burrowland_id,
            final(self).guardians@ == old(self).guardians@,
    {
        assert_all_same_action_type(actions)?;
        let tokens = get_tokens_in_actions(actions);
        match self.assert_no_frozen_tokens(&tokens) {
            Ok(()) => {},
            Err(e) => {
                proof {
                    let k = choose|k: int| 0 <= k < tokens@.len() && is_frozen(self, #[trigger] tokens@[k]@);
                    assert(views_of(tokens@)[k] == tokens@[k]@);
                    assert(views_of(tokens@).contains(tokens@[k]@));
                    assert(involved(actions@, tokens@[k]@));
                }
                return Err(e);
            },
        }
        proof {
            assert forall|t: Seq<char>| involved(actions@, t) implies !is_frozen(old(self), t) by {
                assert(views_of(tokens@).contains(t));
                let k = choose|k: int| 0 <= k < views_of(tokens@).len() && views_of(tokens@)[k] == t;
                assert(tokens@[k]@ == t);
            }
        }
        if actions.len() == 0 {
            return Err(ExchangeError::AtLeastOneSwap);
        }
        match &actions[0] {
            Action::Swap(_) => {},
            Action::SwapByOutput(_) => {
                return Err(ExchangeError::Unsupported);
            },
        }
        let mut result = prev_result;
        let ghost fees = swap_fees(old(self), *exchange_id, *referral_info);
        let ghost mut cs: Seq<Contract> = seq![*self];
        let ghost mut accts: Seq<Account> = seq![*account];
        let ghost mut results: Seq<ActionResult> = seq![prev_result];
        let mut i: usize = 0;
        while i < actions.len()
            invariant
                contract_wf(self),
                fees == swap_fees(old(self), *exchange_id, *referral_info),
                cs.len() == i + 1,
                accts.len() == i + 1,
                results.len() == i + 1,
                cs[0] == *old(self),
                accts[0] == *old(account),
                results[0] == prev_result,
                cs[i as int] == *self,
                accts[i as int] == *account,
                results[i as int] == result,
                forall|k: int| 0 <= k < i ==> #[trigger] swap_step(&cs[k], &cs[k + 1], &accts[k], &accts[k + 1], actions@[k], results[k], fees, now, results[k + 1]),
                0 < actions.len(),
                actions@[0] is Swap,
                all_same_action_type(actions@),
                forall|t: Seq<char>| involved(actions@, t) ==> !is_frozen(old(self), t),
                i <= actions.len(),
                i > 0 ==> result is Amount,
                forall|t: Seq<char>| !involved(actions@, t) ==> #[trigger] account_balance(account, t) == account_balance(old(account), t),
                account.near_amount == old(account).near_amount,
                self.pools@.len() == old(self).pools@.len(),
                self.admin_fee_bps == old(self).admin_fee_bps,
                self.state == old(self).state,
                self.frozen_tokens@ == old(self).frozen_tokens@,
                self.whitelisted_tokens@ == old(self).whitelisted_tokens@,
                self.auto_whitelisted_postfix@ == old(self).auto_whitelisted_postfix@,
                self.referrals@ == old(self).referrals@,
                self.owner_id == old(self).owner_id,
                self.boost_farm_id == old(self).boost_farm_id,
                self.burrowland_id == old(self).burrowland_id,
                self.guardians@ == old(self).guardians@,
            decreases actions.len() - i,
        {
            let ghost before = *account;
            let ghost c_before = *self;
            let ghost r_before = result;
            result = match self.internal_execute_action(account, referral_info, &actions[i], result, exchange_id, now) {
                Ok(v) => v,
                Err(e) => {
                    proof {
                        assert(swap_fees(&c_before, *exchange_id, *referral_info) == fees);
                        assert(actions_stop(old(self), old(account), actions@, prev_result, fees, now, i as int, cs, accts, results));
                    }
                    return Err(e);
                },
            };
            proof {
                assert(swap_fees(&c_before, *exchange_id, *referral_info) == fees);
                assert(swap_step(&c_before, self, &before, account, actions@[i as int], r_before, fees, now, result));
                let cs1 = cs.push(*self);
                let accts1 = accts.push(*account);
                let results1 = results.push(result);
                assert forall|k: int| 0 <= k < i + 1 implies #[trigger] swap_step(&cs1[k], &cs1[k + 1], &accts1[k], &accts1[k + 1], actions@[k], results1[k], fees, now, results1[k + 1]) by {
                    if k < i {
                        assert(cs1[k] == cs[k] && cs1[k + 1] == cs[k + 1]);
                        assert(accts1[k] == accts[k] && accts1[k + 1] == accts[k + 1]);
                        assert(results1[k] == results[k] && results1[k + 1] == results[k + 1]);
                    } else {
                        assert(cs1[k] == c_before && cs1[k + 1] == *self);
                        assert(accts1[k] == before && accts1[k + 1] == *account);
                        assert(results1[k] == r_before && results1[k + 1] == result);
                    }
                }
                cs = cs1;
                accts = accts1;
                results = results1;
                let a = actions@[i as int];
                assert forall|t: Seq<char>| !involved(actions@, t) implies #[trigger] account_balance(account, t) == account_balance(old(account), t) by {
                    assert(action_token_in(a) != t && action_token_out(a) != t);
                    assert(account_balance(account, t) == account_balance(&before, t));
                }
            }
            i = i + 1;
        }
        proof {
            assert(actions_trace(old(self), self, old(account), account, actions@, prev_result, fees, now, result, cs, accts, results));
        }
        Ok(result)
    }

    /// The referral and its fee rate, where the referral is known to the exchange.
    pub fn referral_info_of(&self, referral_id: &Option<String>) -> (r: Option<(String, u32)>)
        ensures
            match *referral_id {
                Some(rid) => if self.referrals@.contains_key(rid@) {
                    r matches Some(x) && x.0@ == rid@ && x.1 == self.referrals@[rid@]
                } else {
                    r is None
                },
                None => r is None,
            },
    {
        match referral_id {
            Some(rid) => match self.referrals.get(rid.as_str()) {
                Some(fee) => Some((rid.clone(), *fee)),
                None => None,
            },
            None => None,
        }
    }

    /// Refuses actions that involve a token the account has not registered and that is not
    /// whitelisted.
    pub fn assert_tokens_usable(&self, account: &Account, actions: &Vec<Action>) -> (r: Result<(), ExchangeError>)
        ensures
            r is Ok <==> forall|t: Seq<char>| involved(actions@, t) ==> account_balance(account, t) is Some || is_whitelisted(self, t),
            r is Err ==> r == Err::<(), ExchangeError>(ExchangeError::DepositNeeded),
    {
        let mut i: usize = 0;
        while i < actions.len()
            invariant
                i <= actions.len(),
                forall|j: int| 0 <= j < i ==> (account_balance(account, action_token_in(#[trigger] actions@[j])) is Some || is_whitelisted(self, action_token_in(actions@[j])))
                    && (account_balance(account, action_token_out(actions@[j])) is Some || is_whitelisted(self, action_token_out(actions@[j]))),
            decreases actions.len() - i,
        {
            let tokens = actions[i].tokens();
            let mut k: usize = 0;
            while k < 2
                invariant
                    i < actions.len(),
                    k <= 2,
                    tokens@.len() == 2,
                    tokens@[0]@ == action_token_in(actions@[i as int]),
                    tokens@[1]@ == action_token_out(actions@[i as int]),
                    forall|q: int| 0 <= q < k ==> account_balance(account, #[trigger] tokens@[q]@) is Some || is_whitelisted(self, tokens@[q]@),
                decreases 2 - k,
            {
                let ok = account.get_balance(&tokens[k]).is_some() || self.is_whitelisted_token(&tokens[k]);
                if !ok {
                    proof {
                        let t = tokens@[k as int]@;
                        assert(action_token_in(actions@[i as int]) == t || action_token_out(actions@[i as int]) == t);
                        assert(involved(actions@, t));
                    }
                    return Err(ExchangeError::DepositNeeded);
                }
                k = k + 1;
            }
            proof {
                assert(account_balance(account, tokens@[0]@) is Some || is_whitelisted(self, tokens@[0]@));
                assert(account_balance(account, tokens@[1]@) is Some || is_whitelisted(self, tokens@[1]@));
            }
            i = i + 1;
        }
        proof {
            assert forall|t: Seq<char>| involved(actions@, t) implies account_balance(account, t) is Some || is_whitelisted(self, t) by {
                let j = choose|j: int| 0 <= j < actions@.len() && (action_token_in(#[trigger] actions@[j]) == t || action_token_out(actions@[j]) == t);
                assert(action_token_in(actions@[j]) == t || action_token_out(actions@[j]) == t);
            }
        }
        Ok(())
    }

    /// Executes a sequence of actions for the account. Without an attached deposit, every
    /// token involved must be registered in the account or whitelisted.
    pub fn execute_actions(
        &mut self,
        account: &mut Account,
        actions: &Vec<Action>,
        referral_id: &Option<String>,
        attached_deposit: u128,
        exchange_id: &String,
        now: u64,
    ) -> (r: Result<ActionResult, ExchangeError>)
        requires
            contract_wf(old(self)),
        ensures
            contract_wf(final(self)),
            old(self).state != RunningState::Running ==> r == Err::<ActionResult, ExchangeError>(ExchangeError::ContractPaused),
            old(self).state == RunningState::Running && actions@.len() == 0 ==> r == Err::<ActionResult, ExchangeError>(ExchangeError::AtLeastOneSwap),
            old(self).state == RunningState::Running && actions@.len() > 0 && attached_deposit == 0
                && !(forall|t: Seq<char>| involved(actions@, t) ==> account_balance(old(account), t) is Some || is_whitelisted(old(self), t))
                ==> r == Err::<ActionResult, ExchangeError>(ExchangeError::DepositNeeded),
            r is Ok ==> r->Ok_0 is Amount,
            r is Ok ==> forall|t: Seq<char>| !involved(actions@, t) ==> #[trigger] account_balance(final(account), t) == account_balance(old(account), t),
            r matches Ok(res) ==> exists|ri: Option<(String, u32)>| referral_known(old(self), *referral_id, ri)
                && #[trigger] ran_actions(old(self), final(self), old(account), final(account), actions@, ActionResult::Nothing, swap_fees(old(self), *exchange_id, ri), now, res),
            r is Err && old(self).state == RunningState::Running && actions@.len() > 0
                && (attached_deposit > 0 || forall|t: Seq<char>| involved(actions@, t) ==> account_balance(old(account), t) is Some || is_whitelisted(old(self), t))
                && all_same_action_type(actions@) && !(exists|t: Seq<char>| involved(actions@, t) && is_frozen(old(self), t)) && actions@[0] is Swap
                ==> stops_with_referral(old(self), old(account), actions@, *referral_id, *exchange_id, now),
            old(self).state == RunningState::Running && actions@.len() > 0
                && (attached_deposit > 0 || forall|t: Seq<char>| involved(actions@, t) ==> account_balance(old(account), t) is Some || is_whitelisted(old(self), t))
                && !all_same_action_type(actions@) ==> r == Err::<ActionResult, ExchangeError>(ExchangeError::InvalidActionType),
            old(self).state == RunningState::Running && actions@.len() > 0
                && (attached_deposit > 0 || forall|t: Seq<char>| involved(actions@, t) ==> account_balance(old(account), t) is Some || is_whitelisted(old(self), t))
                && all_same_action_type(actions@) && (exists|t: Seq<char>| involved(actions@, t) && is_frozen(old(self), t))
                ==> r == Err::<ActionResult, ExchangeError>(ExchangeError::FrozenToken),
            final(self).pools@.len() == old(self).pools@.len(),
    {
        self.assert_contract_running()?;
        if actions.len() == 0 {
            return Err(ExchangeError::AtLeastOneSwap);
        }
        // Validate that all tokens are whitelisted if no deposit (e.g. trade with access key).
        if attached_deposit == 0 {
            self.assert_tokens_usable(account, actions)?;
        }
        let referral_info = self.referral_info_of(referral_id);
        proof {
            assert(referral_known(old(self), *referral_id, referral_info));
        }
        let r = self.internal_execute_actions(account, &referral_info, actions, ActionResult::Nothing, exchange_id, now);
        proof {
            if r is Err && all_same_action_type(actions@) && !(exists|t: Seq<char>| involved(actions@, t) && is_frozen(old(self), t)) && actions@[0] is Swap {
                assert(run_stops(old(self), old(account), actions@, ActionResult::Nothing, swap_fees(old(self), *exchange_id, referral_info), now));
            }
        }
        r
    }

    /// Whether the caller is the owner or a guardian.
    pub fn is_owner_or_guardians(&self, caller: &String) -> (r: bool)
        ensures
            r == (caller@ == self.owner_id@ || exists|i: int| 0 <= i < self.guardians@.len() && #[trigger] self.guardians@[i]@ == caller@),
    {
        *caller == self.owner_id || contains_string(&self.guardians, caller, self.guardians.len())
    }

    /// Adds a pool, with the exchange registered in its shares, and returns its id.
    pub fn internal_add_pool(&mut self, pool: Pool, exchange_id: &String) -> (r: Result<u64, ExchangeError>)
        requires
            contract_wf(old(self)),
            pool_wf(&pool),
        ensures
            contract_wf(final(self)),
            r matches Ok(id) ==> id == old(self).pools@.len() && final(self).pools@.len() == old(self).pools@.len() + 1
                && pool_tokens(&final(self).pools@[id as int]) == pool_tokens(&pool)
                && (final(self).pools@[id as int] is SimplePool) == (pool is SimplePool)
                && forall|j: int| 0 <= j < old(self).pools@.len() ==> #[trigger] final(self).pools@[j] == old(self).pools@[j],
            r matches Ok(id) ==> registered_pool(&pool, &final(self).pools@[id as int], exchange_id@),
            r is Ok <==> !pool_ledger(&pool).contains_key(exchange_id@),
            r is Err ==> r == Err::<u64, ExchangeError>(ExchangeError::LpAlreadyRegistered),
            r is Err ==> final(self).pools@ == old(self).pools@,
    {
        let mut pool = pool;
        pool.share_register(exchange_id)?;
        let id = self.pools.len() as u64;
        let n = pool.tokens().len();
        let mut volumes: Vec<SwapVolumeU256> = Vec::new();
        let mut i: usize = 0;
        while i < n
            invariant
                i <= n,
                volumes.len() == i,
            decreases n - i,
        {
            volumes.push(SwapVolumeU256::default_volume());
            i = i + 1;
        }
        let ghost p = pool;
        self.pools.push(pool);
        proof {
            assert forall|j: int| 0 <= j < self.pools@.len() implies #[trigger] pool_wf(&self.pools@[j]) by {
                if j < old(self).pools@.len() {
                    assert(self.pools@[j] == old(self).pools@[j]);
                }
            }
        }
        crate::swap_volume::internal_set_swap_volume_u256_vec(&mut self.swap_volumes, id, volumes);
        Ok(id)
    }

    /// Adds new "Simple Pool" with given tokens and given fee.
    pub fn add_simple_pool(&mut self, tokens: Vec<String>, fee: u32, exchange_id: &String) -> (r: Result<u64, ExchangeError>)
        requires
            contract_wf(old(self)),
        ensures
            contract_wf(final(self)),
            old(self).state != RunningState::Running ==> r == Err::<u64, ExchangeError>(ExchangeError::ContractPaused),
            old(self).state == RunningState::Running && !no_duplicates(views_of(tokens@)) ==> r == Err::<u64, ExchangeError>(ExchangeError::TokenDuplicates),
            r matches Ok(id) ==> id == old(self).pools@.len() && final(self).pools@.len() == old(self).pools@.len() + 1 && final(self).pools@[id as int] is SimplePool,
    {
        self.assert_contract_running()?;
        if !check_token_duplicates(&tokens) {
            return Err(ExchangeError::TokenDuplicates);
        }
        if self.pools.len() as u64 >= 0x1_0000_0000 {
            return Err(ExchangeError::ArithmeticOverflow);
        }
        let pool = SimplePool::new(self.pools.len() as u32, tokens, fee, 0, 0)?;
        let r = self.internal_add_pool(Pool::SimplePool(pool), exchange_id);
        proof {
            if r is Ok {
                assert(pool_tokens(&self.pools@[r->Ok_0 as int]) == pool_tokens(&Pool::SimplePool(pool)));
            }
        }
        r
    }

    /// Adds new "Stable Pool" with given tokens, decimals, fee and amp; the owner or a
    /// guardian only.
    pub fn add_stable_swap_pool(
        &mut self,
        caller: &String,
        tokens: Vec<String>,
        decimals: Vec<u8>,
        fee: u32,
        amp_factor: u64,
        exchange_id: &String,
    ) -> (r: Result<u64, ExchangeError>)
        requires
            contract_wf(old(self)),
        ensures
            contract_wf(final(self)),
            !(caller@ == old(self).owner_id@ || exists|i: int| 0 <= i < old(self).guardians@.len() && #[trigger] old(self).guardians@[i]@ == caller@) ==> r == Err::<u64, ExchangeError>(ExchangeError::NotAllowed),
            r is Ok ==> tokens@.len() == decimals@.len() && no_duplicates(views_of(tokens@)) && decimals_ok(decimals@) && MIN_AMP <= amp_factor <= MAX_AMP && fee < FEE_DIVISOR,
            r matches Ok(id) ==> id == old(self).pools@.len() && final(self).pools@.len() == old(self).pools@.len() + 1,
    {
        if !self.is_owner_or_guardians(caller) {
            return Err(ExchangeError::NotAllowed);
        }
        if tokens.len() != decimals.len() {
            return Err(ExchangeError::TokensDecimalsMismatch);
        }
        if !check_token_duplicates(&tokens) {
            return Err(ExchangeError::TokenDuplicates);
        }
        if self.pools.len() as u64 >= 0x1_0000_0000 {
            return Err(ExchangeError::ArithmeticOverflow);
        }
        let pool = StableSwapPool::new(self.pools.len() as u32, tokens, decimals, amp_factor as u128, fee)?;
        self.internal_add_pool(Pool::StableSwapPool(pool), exchange_id)
    }

    /// Execute set of swap actions between pools, and returns the amount the last one gave.
    pub fn swap(
        &mut self,
        account: &mut Account,
        actions: Vec<SwapAction>,
        referral_id: &Option<String>,
        attached_deposit: u128,
        exchange_id: &String,
        now: u64,
    ) -> (r: Result<u128, ExchangeError>)
        requires
            contract_wf(old(self)),
        ensures
            contract_wf(final(self)),
            old(self).state != RunningState::Running ==> r == Err::<u128, ExchangeError>(ExchangeError::ContractPaused),
            old(self).state == RunningState::Running && actions@.len() == 0 ==> r == Err::<u128, ExchangeError>(ExchangeError::AtLeastOneSwap),
            old(self).state == RunningState::Running && actions@.len() > 0 && attached_deposit == 0
                && !(forall|t: Seq<char>| involved(swap_actions(actions@), t) ==> account_balance(old(account), t) is Some || is_whitelisted(old(self), t))
                ==> r == Err::<u128, ExchangeError>(ExchangeError::DepositNeeded),
            old(self).state == RunningState::Running && (exists|t: Seq<char>| involved(swap_actions(actions@), t) && is_frozen(old(self), t))
                && (attached_deposit > 0 || forall|t: Seq<char>| involved(swap_actions(actions@), t) ==> account_balance(old(account), t) is Some || is_whitelisted(old(self), t))
                ==> r == Err::<u128, ExchangeError>(ExchangeError::FrozenToken),
            r matches Ok(v) ==> ran_with_referral(old(self), final(self), old(account), final(account), swap_actions(actions@), *referral_id, *exchange_id, now, ActionResult::Amount(v)),
            r is Err && old(self).state == RunningState::Running && actions@.len() > 0
                && (attached_deposit > 0 || forall|t: Seq<char>| involved(swap_actions(actions@), t) ==> account_balance(old(account), t) is Some || is_whitelisted(old(self), t))
                && !(exists|t: Seq<char>| involved(swap_actions(actions@), t) && is_frozen(old(self), t))
                ==> stops_with_referral(old(self), old(account), swap_actions(actions@), *referral_id, *exchange_id, now),
            final(self).pools@.len() == old(self).pools@.len(),
    {
        let mut wrapped: Vec<Action> = Vec::new();
        let mut rest = actions;
        let ghost all = actions@;
        let ghost n = rest@.len();
        while rest.len() > 0
            invariant
                wrapped@.len() + rest@.len() == n,
                n == all.len(),
                wrapped@ == swap_actions(all.subrange(0, wrapped@.len() as int)),
                rest@ == all.subrange(wrapped@.len() as int, n as int),
            decreases rest.len(),
        {
            let ghost k: int = wrapped@.len() as int;
            let a = rest.remove(0);
            wrapped.push(Action::Swap(a));
            proof {
                assert(a == all[k]);
                assert(swap_actions(all.subrange(0, k + 1)) =~= swap_actions(all.subrange(0, k)).push(Action::Swap(a)));
                assert(rest@ =~= all.subrange(k + 1, n as int));
            }
        }
        proof {
            assert(all.subrange(0, n as int) =~= all);
            assert(wrapped@ == swap_actions(all));
            assert(all_same_action_type(wrapped@));
        }
        let result = self.execute_actions(account, &wrapped, referral_id, attached_deposit, exchange_id, now)?;
        result.to_amount()
    }

    /// Records a deposit of a token to a registered account: the token must be whitelisted, by
    /// the list or by a postfix, or already registered in the account.
    pub fn internal_deposit(&self, account: &mut Account, token_id: &String, amount: u128) -> (r: Result<(), ExchangeError>)
        ensures
            !is_whitelisted(self, token_id@) && account_balance(old(account), token_id@) is None
                ==> r == Err::<(), ExchangeError>(ExchangeError::TokenNotWhitelisted),
            r is Ok ==> account_balance(final(account), token_id@) == Some((balance_or_zero(old(account), token_id@) + amount) as u128)
                && forall|t: Seq<char>| t != token_id@ ==> #[trigger] account_balance(final(account), t) == account_balance(old(account), t),
            r is Ok ==> final(account).near_amount == old(account).near_amount,
            (is_whitelisted(self, token_id@) || account_balance(old(account), token_id@) is Some)
                && balance_or_zero(old(account), token_id@) + amount <= u128::MAX ==> r is Ok,
            r is Err ==> final(account).tokens@ == old(account).tokens@ && final(account).legacy_tokens@ == old(account).legacy_tokens@
                && final(account).near_amount == old(account).near_amount,
    {
        if !self.is_whitelisted_token(token_id) && account.get_balance(token_id).is_none() {
            return Err(ExchangeError::TokenNotWhitelisted);
        }
        account.deposit(token_id, amount)
    }

    /// Adds liquidity to a simple pool from the account's deposits: the pool takes balanced
    /// amounts, each at least its minimum where minimums are given.
    pub fn add_liquidity(
        &mut self,
        account: &mut Account,
        sender_id: &String,
        pool_id: u64,
        amounts: Vec<u128>,
        min_amounts: Option<Vec<u128>>,
        attached_deposit: u128,
    ) -> (r: Result<u128, ExchangeError>)
        requires
            contract_wf(old(self)),
        ensures
            contract_wf(final(self)),
            old(self).state != RunningState::Running ==> r == Err::<u128, ExchangeError>(ExchangeError::ContractPaused),
            old(self).state == RunningState::Running && attached_deposit == 0 ==> r == Err::<u128, ExchangeError>(ExchangeError::AtLeastOneYocto),
            old(self).state == RunningState::Running && attached_deposit > 0 && pool_id >= old(self).pools@.len() ==> r == Err::<u128, ExchangeError>(ExchangeError::NoPool),
            old(self).state == RunningState::Running && attached_deposit > 0 && pool_id < old(self).pools@.len()
                && (exists|i: int| 0 <= i < pool_tokens(&old(self).pools@[pool_id as int]).len() && is_frozen(old(self), #[trigger] pool_tokens(&old(self).pools@[pool_id as int])[i]@))
                ==> r == Err::<u128, ExchangeError>(ExchangeError::FrozenToken),
            r matches Ok(s) ==> old(self).state == RunningState::Running && attached_deposit > 0
                && added_liquidity(old(self), final(self), old(account), final(account), sender_id@, pool_id as int, amounts@, min_amounts, s as nat),
            old(self).state == RunningState::Running && attached_deposit > 0 && pool_id < old(self).pools@.len()
                && pool_deposit_ok(old(self), &old(self).pools@[pool_id as int], old(account), sender_id@, amounts@, min_amounts) ==> r is Ok,
            final(self).pools@.len() == old(self).pools@.len(),
    {
        self.assert_contract_running()?;
        if attached_deposit == 0 {
            return Err(ExchangeError::AtLeastOneYocto);
        }
        if pool_id >= self.pools.len() as u64 {
            return Err(ExchangeError::NoPool);
        }
        let idx = pool_id as usize;
        let mut pool = self.pools.remove(idx);
        let ghost p0 = pool;
        assert(p0 == old(self).pools@[idx as int]);
        let mut amounts = amounts;
        let outcome = self.add_liquidity_to(&mut pool, account, sender_id, &mut amounts, &min_amounts);
        let ghost p1 = pool;
        self.pools.insert(idx, pool);
        proof {
            assert(self.pools@[idx as int] == p1);
            assert forall|j: int| 0 <= j < self.pools@.len() implies #[trigger] pool_wf(&self.pools@[j]) by {
                if j != idx {
                    assert(self.pools@[j] == old(self).pools@[j]);
                }
            }
            assert forall|j: int| 0 <= j < old(self).pools@.len() && j != idx implies #[trigger] self.pools@[j] == old(self).pools@[j] by {
            }
        }
        outcome
    }

    /// The pool part of adding liquidity: frozen tokens refused, the deposit taken from the
    /// account.
    fn add_liquidity_to(
        &self,
        pool: &mut Pool,
        account: &mut Account,
        sender_id: &String,
        amounts: &mut Vec<u128>,
        min_amounts: &Option<Vec<u128>>,
    ) -> (r: Result<u128, ExchangeError>)
        requires
            pool_wf(old(pool)),
        ensures
            pool_wf(final(pool)),
            (exists|i: int| 0 <= i < pool_tokens(old(pool)).len() && is_frozen(self, #[trigger] pool_tokens(old(pool))[i]@))
                ==> r == Err::<u128, ExchangeError>(ExchangeError::FrozenToken),
            r matches Ok(s) ==> {
                let tokens = pool_tokens(old(pool));
                let take = taken(old(pool), final(pool));
                &&& forall|i: int| 0 <= i < tokens.len() ==> !is_frozen(self, #[trigger] tokens[i]@)
                &&& liquidity_added(old(pool), final(pool), sender_id@, old(amounts)@, take, s as nat)
                &&& *min_amounts matches Some(m) ==> forall|i: int| 0 <= i < take.len() && i < m@.len() ==> #[trigger] take[i] >= m@[i]
                &&& withdrawn_all(old(account), final(account), tokens, take, tokens.len() as int)
            },
            pool_deposit_ok(self, old(pool), old(account), sender_id@, old(amounts)@, *min_amounts) ==> r is Ok,
    {
        let ghost ok = pool_deposit_ok(self, old(pool), old(account), sender_id@, old(amounts)@, *min_amounts);
        self.assert_no_frozen_tokens(pool.tokens())?;
        let ghost toks0 = pool_tokens(pool);
        // Add amounts given to liquidity first. It will return the balanced amounts.
        let shares = pool.add_liquidity(sender_id, amounts)?;
        let ghost p1 = *pool;
        proof {
            assert(amounts@ =~= taken(old(pool), &p1));
            if ok {
                assert(amounts@ =~= deposit_take(&old(pool)->SimplePool_0, old(amounts)@));
            }
        }
        match min_amounts {
            Some(mins) => {
                let mut i: usize = 0;
                while i < amounts.len() && i < mins.len()
                    invariant
                        pool_wf(pool),
                        *pool == p1,
                        toks0 == pool_tokens(old(pool)),
                        forall|j: int| 0 <= j < toks0.len() ==> !is_frozen(self, #[trigger] toks0[j]@),
                        forall|j: int| 0 <= j < i ==> #[trigger] amounts@[j] >= mins@[j],
                        ok == pool_deposit_ok(self, old(pool), old(account), sender_id@, old(amounts)@, *min_amounts),
                        ok ==> amounts@ == deposit_take(&old(pool)->SimplePool_0, old(amounts)@),
                        ok ==> forall|j: int| 0 <= j < old(amounts)@.len() && j < mins@.len()
                            ==> #[trigger] deposit_take(&old(pool)->SimplePool_0, old(amounts)@)[j] >= mins@[j],
                        ok ==> amounts@.len() == old(amounts)@.len(),
                        i <= amounts.len(),
                    decreases amounts.len() - i,
                {
                    proof {
                        if ok {
                            assert(deposit_take(&old(pool)->SimplePool_0, old(amounts)@)[i as int] >= mins@[i as int]);
                        }
                    }
                    // Check that all amounts are above request min amounts in case of front running that changes the exchange rate.
                    if amounts[i] < mins[i] {
                        return Err(ExchangeError::BelowMinAmount);
                    }
                    i = i + 1;
                }
            },
            None => {},
        }
        let tokens = pool.tokens();
        let ghost a0 = *account;
        proof {
            assert(tokens@ == toks0);
            if ok {
                assert(amounts@ == deposit_take(&old(pool)->SimplePool_0, old(amounts)@));
                assert(can_withdraw_all(&a0, tokens@, amounts@, tokens@.len() as int));
            }
        }
        let mut i: usize = 0;
        while i < tokens.len() && i < amounts.len()
            invariant
                pool_wf(pool),
                *pool == p1,
                tokens@ == pool_tokens(pool),
                tokens@ == toks0,
                toks0 == pool_tokens(old(pool)),
                forall|j: int| 0 <= j < toks0.len() ==> !is_frozen(self, #[trigger] toks0[j]@),
                amounts@.len() == tokens@.len(),
                i <= tokens.len(),
                withdrawn_all(&a0, account, tokens@, amounts@, i as int),
                ok == pool_deposit_ok(self, old(pool), old(account), sender_id@, old(amounts)@, *min_amounts),
                ok ==> amounts@ == deposit_take(&old(pool)->SimplePool_0, old(amounts)@),
                ok ==> can_withdraw_all(&a0, tokens@, amounts@, tokens@.len() as int),
            decreases tokens.len() - i,
        {
            let ghost cur = *account;
            proof {
                if ok {
                    lemma_can_withdraw_next(&a0, &cur, tokens@, amounts@, i as int, tokens@.len() as int);
                }
            }
            // Subtract updated amounts from deposits. This will fail if there is not enough funds for any of the tokens.
            account.withdraw(&tokens[i], amounts[i])?;
            proof {
                lemma_withdrawn_all_step(&a0, &cur, account, tokens@, amounts@, i as int);
            }
            i = i + 1;
        }
        Ok(shares)
    }

    /// Removes liquidity from a pool and credits the tokens to the account; shares the account
    /// has cast to the farm or to burrowland cannot be burnt.
    pub fn remove_liquidity(
        &mut self,
        account: &mut Account,
        sender_id: &String,
        pool_id: u64,
        shares: u128,
        min_amounts: Vec<u128>,
    ) -> (r: Result<Vec<u128>, ExchangeError>)
        requires
            contract_wf(old(self)),
        ensures
            contract_wf(final(self)),
            old(self).state != RunningState::Running ==> r == Err::<Vec<u128>, ExchangeError>(ExchangeError::ContractPaused),
            old(self).state == RunningState::Running && pool_id >= old(self).pools@.len() ==> r == Err::<Vec<u128>, ExchangeError>(ExchangeError::NoPool),
            old(self).state == RunningState::Running && pool_id < old(self).pools@.len() && old(account).shadow_records@.contains_key(pool_id)
                && shares > free_under(old(account).shadow_records@[pool_id], balance_in(pool_ledger(&old(self).pools@[pool_id as int]), sender_id@) as nat)
                ==> r == Err::<Vec<u128>, ExchangeError>(ExchangeError::NotEnoughFreeShares),
            old(self).state == RunningState::Running && pool_id < old(self).pools@.len()
                && shares <= free_under(shadow_of(old(account), pool_id), balance_in(pool_ledger(&old(self).pools@[pool_id as int]), sender_id@) as nat)
                && (exists|i: int| 0 <= i < pool_tokens(&old(self).pools@[pool_id as int]).len() && is_frozen(old(self), #[trigger] pool_tokens(&old(self).pools@[pool_id as int])[i]@))
                ==> r == Err::<Vec<u128>, ExchangeError>(ExchangeError::FrozenToken),
            r matches Ok(out) ==> old(self).state == RunningState::Running
                && !(old(account).shadow_records@.contains_key(pool_id)
                    && shares > free_under(old(account).shadow_records@[pool_id], balance_in(pool_ledger(&old(self).pools@[pool_id as int]), sender_id@) as nat))
                && removed_liquidity(old(self), final(self), old(account), final(account), sender_id@, pool_id as int, shares as nat, min_amounts@, out@),
            old(self).state == RunningState::Running && pool_id < old(self).pools@.len()
                && shares <= free_under(shadow_of(old(account), pool_id), balance_in(pool_ledger(&old(self).pools@[pool_id as int]), sender_id@) as nat)
                && pool_withdraw_ok(old(self), &old(self).pools@[pool_id as int], old(account), sender_id@, shares as nat, min_amounts@) ==> r is Ok,
            final(self).pools@.len() == old(self).pools@.len(),
    {
        self.assert_contract_running()?;
        if pool_id >= self.pools.len() as u64 {
            return Err(ExchangeError::NoPool);
        }
        let idx = pool_id as usize;
        // shares cast to the farm or to burrowland stay in the pool
        match account.get_shadow_record(pool_id) {
            Some(rec) => {
                if shares > rec.free_shares(self.pools[idx].share_balances(sender_id)) {
                    return Err(ExchangeError::NotEnoughFreeShares);
                }
            },
            None => {},
        }
        let mut pool = self.pools.remove(idx);
        let ghost p0 = pool;
        assert(p0 == old(self).pools@[idx as int]);
        let outcome = self.remove_liquidity_from(&mut pool, account, sender_id, shares, min_amounts);
        let ghost p1 = pool;
        self.pools.insert(idx, pool);
        proof {
            assert(self.pools@[idx as int] == p1);
            assert forall|j: int| 0 <= j < self.pools@.len() implies #[trigger] pool_wf(&self.pools@[j]) by {
                if j != idx {
                    assert(self.pools@[j] == old(self).pools@[j]);
                }
            }
            assert forall|j: int| 0 <= j < old(self).pools@.len() && j != idx implies #[trigger] self.pools@[j] == old(self).pools@[j] by {
            }
        }
        outcome
    }

    /// The pool part of removing liquidity: frozen tokens refused, the tokens credited.
    pub(crate) fn remove_liquidity_from(
        &self,
        pool: &mut Pool,
        account: &mut Account,
        sender_id: &String,
        shares: u128,
        min_amounts: Vec<u128>,
    ) -> (r: Result<Vec<u128>, ExchangeError>)
        requires
            pool_wf(old(pool)),
        ensures
            pool_wf(final(pool)),
            (exists|i: int| 0 <= i < pool_tokens(old(pool)).len() && is_frozen(self, #[trigger] pool_tokens(old(pool))[i]@))
                ==> r == Err::<Vec<u128>, ExchangeError>(ExchangeError::FrozenToken),
            r matches Ok(out) ==> {
                let tokens = pool_tokens(old(pool));
                &&& forall|i: int| 0 <= i < tokens.len() ==> !is_frozen(self, #[trigger] tokens[i]@)
                &&& liquidity_removed(old(pool), final(pool), sender_id@, shares as nat, min_amounts@, out@)
                &&& out@.len() == tokens.len()
                &&& deposited_all(old(account), final(account), tokens, out@, tokens.len() as int)
            },
            pool_withdraw_ok(self, old(pool), old(account), sender_id@, shares as nat, min_amounts@) ==> r is Ok,
    {
        let ghost ok = pool_withdraw_ok(self, old(pool), old(account), sender_id@, shares as nat, min_amounts@);
        self.assert_no_frozen_tokens(pool.tokens())?;
        let ghost toks0 = pool_tokens(pool);
        let amounts = pool.remove_liquidity(sender_id, shares, min_amounts)?;
        proof {
            if ok {
                match *old(pool) {
                    Pool::SimplePool(s) => {
                        assert(amounts@ =~= share_payouts(&s, shares as nat));
                    },
                    Pool::StableSwapPool(s) => {
                        assert(amounts@ =~= stable_payouts(&s, shares as nat));
                    },
                }
            }
        }
        let tokens = pool.tokens();
        let ghost a0 = *account;
        proof {
            assert(tokens@ == toks0);
            assert(amounts@.len() == tokens@.len());
        }
        let mut i: usize = 0;
        while i < tokens.len() && i < amounts.len()
            invariant
                pool_wf(pool),
                tokens@ == pool_tokens(pool),
                tokens@ == toks0,
                toks0 == pool_tokens(old(pool)),
                forall|j: int| 0 <= j < toks0.len() ==> !is_frozen(self, #[trigger] toks0[j]@),
                amounts@.len() == tokens@.len(),
                i <= tokens.len(),
                deposited_all(&a0, account, tokens@, amounts@, i as int),
                ok == pool_withdraw_ok(self, old(pool), old(account), sender_id@, shares as nat, min_amounts@),
                ok ==> can_deposit_all(&a0, tokens@, amounts@, tokens@.len() as int),
            decreases tokens.len() - i,
        {
            let ghost cur = *account;
            proof {
                if ok {
                    lemma_can_deposit_next(&a0, &cur, tokens@, amounts@, i as int, tokens@.len() as int);
                }
            }
            account.deposit(&tokens[i], amounts[i])?;
            proof {
                lemma_deposited_all_step(&a0, &cur, account, tokens@, amounts@, i as int);
            }
            i = i + 1;
        }
        Ok(amounts)
    }

    /// Withdraws NEAR not needed for the account's storage: `amount`, or all that is free
    /// where `amount` is zero.
    pub fn internal_storage_withdraw(account: &mut Account, amount: u128, byte_cost: u128) -> (r: Result<u128, ExchangeError>)
        ensures
            r matches Ok(w) ==> {
                &&& w > 0
                &&& amount > 0 ==> w == amount
                &&& final(account).near_amount == old(account).near_amount - w
            },
            ({
                let cost = storage_cost(old(account), byte_cost as nat);
                let avail: nat = if old(account).near_amount > cost { (old(account).near_amount - cost) as nat } else { 0 };
                &&& cost > u128::MAX ==> r == Err::<u128, ExchangeError>(ExchangeError::ArithmeticOverflow)
                &&& cost <= u128::MAX && avail == 0 ==> r == Err::<u128, ExchangeError>(ExchangeError::NoStorageCanWithdraw)
                &&& cost <= u128::MAX && avail > 0 && amount > avail ==> r == Err::<u128, ExchangeError>(ExchangeError::StorageWithdrawTooMuch)
                &&& cost <= u128::MAX && avail > 0 && amount <= avail ==> r == Ok::<u128, ExchangeError>(if amount == 0 { avail as u128 } else { amount })
            }),
            r is Err ==> final(account).near_amount == old(account).near_amount,
            final(account).tokens@ == old(account).tokens@,
            final(account).legacy_tokens@ == old(account).legacy_tokens@,
    {
        let available = account.storage_available(byte_cost)?;
        if available == 0 {
            return Err(ExchangeError::NoStorageCanWithdraw);
        }
        let withdraw_amount = if amount == 0 {
            available
        } else {
            amount
        };
        if withdraw_amount > available {
            return Err(ExchangeError::StorageWithdrawTooMuch);
        }
        account.near_amount = account.near_amount - withdraw_amount;
        Ok(withdraw_amount)
    }
}

} // verus!
