//! Tokens sent to the exchange with a message: a plain deposit, a chain of swaps whose
//! results go straight back to the sender, or swaps whose results are added to pools.
use crate::account_deposit::{
    account_balance, can_deposit_all, can_withdraw_all, deposited_all, lemma_can_deposit_next, lemma_can_withdraw_next,
    lemma_deposited_all_step, lemma_listed_step, lemma_listed_total_mono, lemma_unlisted_total, lemma_withdrawn_all_step,
    listed, listed_total, withdrawn_all, Account,
};
use crate::action::{get_tokens_in_actions, involved, Action, ActionResult};
use crate::admin_fee::AdminFees;
use crate::pool::{liquidity_added, pool_tokens, pool_wf, Pool};
use crate::contract::{
    balance_or_zero, contract_wf, deposit_take, is_frozen, is_whitelisted, ran_actions, referral_known, run_stops, swap_fees, taken,
    Contract,
};
use crate::simple_pool::simple_deposit_ok;
use crate::action::all_same_action_type;
use crate::stable_swap::{same_config, spec_add_liquidity, StableSwapPool};
use crate::errors::ExchangeError;
use crate::event::RunningState;
use crate::utils::{extend_set, no_duplicates, views_of, TokenCache};
use vstd::prelude::*;
use vstd::string::*;

verus! {

/// The account that holds tokens while a chain of swaps runs on behalf of a sender.
pub const VIRTUAL_ACC: &'static str = "@";

/// Liquidity to add to a pool, as asked in a transfer message.
#[derive(Clone, Debug)]
pub struct AddLiquidityInfo {
    pub pool_id: u64,
    pub amounts: Vec<u128>,
    pub min_amounts: Option<Vec<u128>>,
    pub min_shares: Option<u128>,
}

/// Message parameters to receive via token function call.
pub enum TokenReceiverMessage {
    /// Alternative to deposit + execute actions call.
    Execute {
        referral_id: Option<String>,
        /// List of sequential actions.
        actions: Vec<Action>,
        /// If not None, use ft_transfer_call
        /// to send token_out back to predecessor with this msg.
        client_echo: Option<String>,
        skip_unwrap_near: Option<bool>,
    },
    HotZap {
        referral_id: Option<String>,
        hot_zap_actions: Vec<Action>,
        add_liquidity_infos: Vec<AddLiquidityInfo>,
    },
}

/// What became of tokens sent to the exchange.
pub enum TransferOutcome {
    /// Credited to the sender's account.
    Deposited,
    /// The results of the swaps, to be sent back to the sender: with `client_echo` as the
    /// message of a transfer call where there is one.
    Send { client_echo: Option<String>, skip_unwrap_near: Option<bool>, amounts: Vec<(String, u128)> },
    /// What the pools did not take, credited to the sender's account.
    HotZapped { remain: Vec<(String, u128)> },
}

/// The tokens of a list of (token, amount) pairs.
pub open spec fn pair_tokens(s: Seq<(String, u128)>) -> Seq<Seq<char>> {
    s.map_values(|p: (String, u128)| p.0@)
}

/// A list of (token, amount) pairs with each token once and every amount positive.
pub open spec fn distinct_positive(s: Seq<(String, u128)>) -> bool {
    &&& no_duplicates(pair_tokens(s))
    &&& forall|i: int| 0 <= i < s.len() ==> #[trigger] s[i].1 > 0
}

/// The token ids of a list of (token, amount) pairs.
pub open spec fn pair_ids(s: Seq<(String, u128)>) -> Seq<String> {
    s.map_values(|p: (String, u128)| p.0)
}

/// The amounts of a list of (token, amount) pairs.
pub open spec fn pair_amounts(s: Seq<(String, u128)>) -> Seq<u128> {
    s.map_values(|p: (String, u128)| p.1)
}

/// An account that holds nothing.
pub open spec fn empty_account(a: &Account) -> bool {
    &&& a.tokens@ == Map::<Seq<char>, u128>::empty()
    &&& a.legacy_tokens@ == Map::<Seq<char>, u128>::empty()
    &&& a.near_amount == 0
}

/// A run of `actions` on a virtual account that starts from nothing with the `use_tokens`
/// (`ve` to `va0`) and ends at `vaf`, while the sender's account pays the `use_tokens` (`a` to
/// `mid`) and gets `out` back (`mid` to `fa`): `out` holds the balance of the virtual account
/// in each token used or swapped, where that balance is positive.
pub open spec fn ran_in_va(
    c: &Contract,
    fc: &Contract,
    a: &Account,
    fa: &Account,
    use_tokens: Seq<(String, u128)>,
    actions: Seq<Action>,
    referral_id: Option<String>,
    exchange_id: String,
    now: u64,
    out: Seq<(String, u128)>,
    ve: Account,
    va0: Account,
    vaf: Account,
    mid: Account,
    ri: Option<(String, u32)>,
    res: ActionResult,
) -> bool {
    &&& empty_account(&ve)
    &&& deposited_all(&ve, &va0, pair_ids(use_tokens), pair_amounts(use_tokens), use_tokens.len() as int)
    &&& referral_known(c, referral_id, ri)
    &&& ran_actions(c, fc, &va0, &vaf, actions, ActionResult::Nothing, swap_fees(c, exchange_id, ri), now, res)
    &&& forall|i: int| 0 <= i < out.len() ==> account_balance(&vaf, #[trigger] out[i].0@) == Some(out[i].1)
    &&& forall|t: Seq<char>| #![trigger pair_tokens(out).contains(t)]
        (pair_tokens(use_tokens).contains(t) || involved(actions, t)) && balance_or_zero(&vaf, t) > 0 ==> pair_tokens(out).contains(t)
    &&& withdrawn_all(a, &mid, pair_ids(use_tokens), pair_amounts(use_tokens), use_tokens.len() as int)
    &&& deposited_all(&mid, fa, pair_ids(out), pair_amounts(out), out.len() as int)
}

/// Whether the `use_tokens` overflow a virtual account that starts from nothing: some token
/// is listed for more than 128 bits in all.
pub open spec fn va_fill_overflows(use_tokens: Seq<(String, u128)>) -> bool {
    exists|ve: Account| #![trigger empty_account(&ve)]
        empty_account(&ve) && !can_deposit_all(&ve, pair_ids(use_tokens), pair_amounts(use_tokens), use_tokens.len() as int)
}

/// Whether `actions`, run from `c` on a virtual account filled from nothing with the
/// `use_tokens`, reach an action that cannot go through.
pub open spec fn va_stops(c: &Contract, use_tokens: Seq<(String, u128)>, actions: Seq<Action>, referral_id: Option<String>, exchange_id: String, now: u64) -> bool {
    exists|ve: Account, va0: Account, ri: Option<(String, u32)>|
        #![trigger empty_account(&ve), run_stops(c, &va0, actions, ActionResult::Nothing, swap_fees(c, exchange_id, ri), now)]
    {
        &&& empty_account(&ve)
        &&& deposited_all(&ve, &va0, pair_ids(use_tokens), pair_amounts(use_tokens), use_tokens.len() as int)
        &&& referral_known(c, referral_id, ri)
        &&& run_stops(c, &va0, actions, ActionResult::Nothing, swap_fees(c, exchange_id, ri), now)
    }
}

/// Whether `actions`, run from `c` on a virtual account filled from nothing with the
/// `use_tokens`, which the account `a` paid (leaving `mid`), go through to the end, and the
/// balances the virtual account ends with (`out`: each token used or swapped where its balance
/// is positive) overflow the account's balances when credited back.
pub open spec fn va_credit_overflows(c: &Contract, a: &Account, use_tokens: Seq<(String, u128)>, actions: Seq<Action>, referral_id: Option<String>, exchange_id: String, now: u64) -> bool {
    exists|ve: Account, va0: Account, fc: Contract, vaf: Account, mid: Account, ri: Option<(String, u32)>, res: ActionResult, out: Seq<(String, u128)>|
        #![trigger empty_account(&ve), ran_actions(c, &fc, &va0, &vaf, actions, ActionResult::Nothing, swap_fees(c, exchange_id, ri), now, res), can_deposit_all(&mid, pair_ids(out), pair_amounts(out), out.len() as int)]
    {
        &&& empty_account(&ve)
        &&& deposited_all(&ve, &va0, pair_ids(use_tokens), pair_amounts(use_tokens), use_tokens.len() as int)
        &&& referral_known(c, referral_id, ri)
        &&& ran_actions(c, &fc, &va0, &vaf, actions, ActionResult::Nothing, swap_fees(c, exchange_id, ri), now, res)
        &&& forall|i: int| 0 <= i < out.len() ==> account_balance(&vaf, #[trigger] out[i].0@) == Some(out[i].1)
        &&& forall|t: Seq<char>| #![trigger pair_tokens(out).contains(t)]
            (pair_tokens(use_tokens).contains(t) || involved(actions, t)) && balance_or_zero(&vaf, t) > 0 ==> pair_tokens(out).contains(t)
        &&& withdrawn_all(a, &mid, pair_ids(use_tokens), pair_amounts(use_tokens), use_tokens.len() as int)
        &&& !can_deposit_all(&mid, pair_ids(out), pair_amounts(out), out.len() as int)
    }
}

/// Why a run of `actions` on a virtual account that the account `a` fills with the
/// `use_tokens` fails, once the exchange's own checks pass: the actions mix types, touch a
/// frozen token or do not start with a swap; the account cannot pay the `use_tokens`; they
/// overflow the virtual account; the run stops at an action that cannot go through; or the run
/// goes through and crediting what it ended with to the account leaves 128 bits.
pub open spec fn va_run_fails(c: &Contract, a: &Account, use_tokens: Seq<(String, u128)>, actions: Seq<Action>, referral_id: Option<String>, exchange_id: String, now: u64) -> bool {
    ||| !all_same_action_type(actions)
    ||| (exists|t: Seq<char>| involved(actions, t) && is_frozen(c, t))
    ||| !(actions[0] is Swap)
    ||| !can_withdraw_all(a, pair_ids(use_tokens), pair_amounts(use_tokens), use_tokens.len() as int)
    ||| va_fill_overflows(use_tokens)
    ||| va_stops(c, use_tokens, actions, referral_id, exchange_id, now)
    ||| va_credit_overflows(c, a, use_tokens, actions, referral_id, exchange_id, now)
}

/// Whether `actions` ran on a virtual account holding the `use_tokens`, paid by the sender,
/// and `out`, what it ended with, went back to the sender.
pub open spec fn swapped_in_va(
    c: &Contract,
    fc: &Contract,
    a: &Account,
    fa: &Account,
    use_tokens: Seq<(String, u128)>,
    actions: Seq<Action>,
    referral_id: Option<String>,
    exchange_id: String,
    now: u64,
    out: Seq<(String, u128)>,
) -> bool {
    exists|ve: Account, va0: Account, vaf: Account, mid: Account, ri: Option<(String, u32)>, res: ActionResult|
        #[trigger] ran_in_va(c, fc, a, fa, use_tokens, actions, referral_id, exchange_id, now, out, ve, va0, vaf, mid, ri, res)
}

/// A run of `actions` on a virtual account that starts with just `amount_in` of `token_in`
/// (`va0`), the first swap taking that amount where it names none, and ends at `vaf`: `out`
/// holds the balance of the virtual account in the token in and in each token swapped, where
/// that balance is positive.
pub open spec fn ran_direct(
    c: &Contract,
    fc: &Contract,
    token_in: Seq<char>,
    amount_in: u128,
    actions: Seq<Action>,
    referral_id: Option<String>,
    exchange_id: String,
    now: u64,
    out: Seq<(String, u128)>,
    va0: Account,
    vaf: Account,
    ri: Option<(String, u32)>,
    res: ActionResult,
) -> bool {
    &&& va0.tokens@ == Map::<Seq<char>, u128>::empty().insert(token_in, amount_in)
    &&& va0.legacy_tokens@ == Map::<Seq<char>, u128>::empty()
    &&& va0.near_amount == 0
    &&& referral_known(c, referral_id, ri)
    &&& ran_actions(c, fc, &va0, &vaf, actions, ActionResult::Amount(amount_in), swap_fees(c, exchange_id, ri), now, res)
    &&& forall|i: int| 0 <= i < out.len() ==> account_balance(&vaf, #[trigger] out[i].0@) == Some(out[i].1)
    &&& forall|t: Seq<char>| #![trigger pair_tokens(out).contains(t)]
        (t == token_in || involved(actions, t)) && balance_or_zero(&vaf, t) > 0 ==> pair_tokens(out).contains(t)
}

/// Whether running `actions` on a virtual account that holds just `amount_in` of `token_in`,
/// the first swap taking that amount where it names none, reaches an action that cannot go
/// through.
pub open spec fn direct_stops(c: &Contract, token_in: Seq<char>, amount_in: u128, actions: Seq<Action>, referral_id: Option<String>, exchange_id: String, now: u64) -> bool {
    exists|va0: Account, ri: Option<(String, u32)>| {
        &&& va0.tokens@ == Map::<Seq<char>, u128>::empty().insert(token_in, amount_in)
        &&& va0.legacy_tokens@ == Map::<Seq<char>, u128>::empty()
        &&& va0.near_amount == 0
        &&& referral_known(c, referral_id, ri)
        &&& #[trigger] run_stops(c, &va0, actions, ActionResult::Amount(amount_in), swap_fees(c, exchange_id, ri), now)
    }
}

/// Whether `actions` ran on a virtual account holding `amount_in` of `token_in`, and `out` is
/// what it ended with.
pub open spec fn swapped_directly(
    c: &Contract,
    fc: &Contract,
    token_in: Seq<char>,
    amount_in: u128,
    actions: Seq<Action>,
    referral_id: Option<String>,
    exchange_id: String,
    now: u64,
    out: Seq<(String, u128)>,
) -> bool {
    exists|va0: Account, vaf: Account, ri: Option<(String, u32)>, res: ActionResult|
        #[trigger] ran_direct(c, fc, token_in, amount_in, actions, referral_id, exchange_id, now, out, va0, vaf, ri, res)
}

/// The cache after the first `n` amounts were taken from it, each from its token: every
/// listed token loses the sum set against it, the others keep their amount.
pub open spec fn cache_taken(c: TokenCache, fc: TokenCache, tokens: Seq<String>, amounts: Seq<u128>, n: int) -> bool {
    &&& forall|t: Seq<char>| #![trigger fc.amount_of(t)] listed(tokens, t, n) ==> {
        &&& c.amount_of(t) >= listed_total(tokens, amounts, t, n)
        &&& fc.amount_of(t) == c.amount_of(t) - listed_total(tokens, amounts, t, n)
    }
    &&& forall|t: Seq<char>| !listed(tokens, t, n) ==> #[trigger] fc.amount_of(t) == c.amount_of(t)
}

/// One more amount taken from the cache carries `cache_taken` one entry further.
proof fn lemma_cache_taken_step(c0: TokenCache, cur: TokenCache, next: TokenCache, tokens: Seq<String>, amounts: Seq<u128>, n: int)
    requires
        0 <= n < tokens.len(),
        n < amounts.len(),
        cache_taken(c0, cur, tokens, amounts, n),
        cur.amount_of(tokens[n]@) >= amounts[n],
        next.amount_of(tokens[n]@) == cur.amount_of(tokens[n]@) - amounts[n],
        forall|t: Seq<char>| t != tokens[n]@ ==> #[trigger] next.amount_of(t) == cur.amount_of(t),
    ensures
        cache_taken(c0, next, tokens, amounts, n + 1),
{
    let tok = tokens[n]@;
    assert forall|t: Seq<char>| #![trigger next.amount_of(t)] #![trigger c0.amount_of(t)] listed(tokens, t, n + 1) implies {
        &&& c0.amount_of(t) >= listed_total(tokens, amounts, t, n + 1)
        &&& next.amount_of(t) == c0.amount_of(t) - listed_total(tokens, amounts, t, n + 1)
    } by {
        lemma_listed_step(tokens, t, n);
        if t == tok {
            if !listed(tokens, t, n) {
                lemma_unlisted_total(tokens, amounts, t, n);
                assert(cur.amount_of(t) == c0.amount_of(t));
            } else {
                assert(cur.amount_of(t) == c0.amount_of(t) - listed_total(tokens, amounts, t, n));
            }
            assert(listed_total(tokens, amounts, t, n + 1) == listed_total(tokens, amounts, t, n) + amounts[n]);
        } else {
            assert(next.amount_of(t) == cur.amount_of(t));
            assert(listed(tokens, t, n));
            assert(cur.amount_of(t) == c0.amount_of(t) - listed_total(tokens, amounts, t, n));
            assert(listed_total(tokens, amounts, t, n + 1) == listed_total(tokens, amounts, t, n));
        }
    }
    assert forall|t: Seq<char>| !listed(tokens, t, n + 1) implies #[trigger] next.amount_of(t) == c0.amount_of(t) by {
        lemma_listed_step(tokens, t, n);
        assert(next.amount_of(t) == cur.amount_of(t));
        assert(!listed(tokens, t, n));
    }
}

/// A stable pool after a deposit of `amounts` that minted at least `min_shares` to `sender`.
pub open spec fn stable_added(p: &StableSwapPool, fp: &StableSwapPool, sender: Seq<char>, amounts: Seq<u128>, min_shares: nat, fees: AdminFees, now: u64) -> bool {
    &&& spec_add_liquidity(p, sender, amounts, min_shares, fees, now) is Ok
    &&& {
        let t = spec_add_liquidity(p, sender, amounts, min_shares, fees, now)->Ok_0;
        &&& fp.c_amounts@ == t.0
        &&& fp.shares@ == t.1
        &&& fp.shares_total_supply == t.2
        &&& same_config(p, fp)
    }
}

/// One liquidity addition of a hot zap, paid from the cache: a simple pool keeps balanced
/// amounts, each at least its minimum, and mints what `deposit_outcome` says; a stable pool
/// takes the amounts and mints at least the minimum shares. The cache pays what the pool
/// took, and only that pool changed.
pub open spec fn zap_step(c: &Contract, fc: &Contract, cache: TokenCache, fcache: TokenCache, info: AddLiquidityInfo, sender: Seq<char>, fees: AdminFees, now: u64) -> bool {
    let p = c.pools@[info.pool_id as int];
    let fp = fc.pools@[info.pool_id as int];
    let tokens = pool_tokens(&p);
    &&& info.pool_id < c.pools@.len()
    &&& fc.pools@.len() == c.pools@.len()
    &&& forall|j: int| 0 <= j < c.pools@.len() && j != info.pool_id ==> #[trigger] fc.pools@[j] == c.pools@[j]
    &&& match (p, fp) {
        (Pool::SimplePool(a), Pool::SimplePool(b)) => {
            let take = taken(&p, &fp);
            &&& info.min_amounts is Some
            &&& liquidity_added(&p, &fp, sender, info.amounts@, take, (b.shares_total_supply - a.shares_total_supply) as nat)
            &&& forall|i: int| 0 <= i < take.len() && i < info.min_amounts->0@.len() ==> #[trigger] take[i] >= info.min_amounts->0@[i]
            &&& cache_taken(cache, fcache, tokens, take, tokens.len() as int)
        },
        (Pool::StableSwapPool(a), Pool::StableSwapPool(b)) => {
            &&& info.min_shares is Some
            &&& stable_added(&a, &b, sender, info.amounts@, info.min_shares->0 as nat, fees, now)
            &&& cache_taken(cache, fcache, tokens, info.amounts@, tokens.len() as int)
        },
        _ => false,
    }
}

/// Whether the cache holds, for each of the first `n` tokens, all that is set against it.
pub open spec fn cache_covers(cache: TokenCache, tokens: Seq<String>, amounts: Seq<u128>, n: int) -> bool {
    forall|t: Seq<char>| #[trigger] listed(tokens, t, n) ==> cache.amount_of(t) >= listed_total(tokens, amounts, t, n)
}

/// Midway through taking every amount from a cache that covers them all, the cache holds the
/// next one.
proof fn lemma_cache_covers_next(c0: TokenCache, cur: TokenCache, tokens: Seq<String>, amounts: Seq<u128>, i: int, n: int)
    requires
        0 <= i < n,
        n <= tokens.len(),
        cache_taken(c0, cur, tokens, amounts, i),
        cache_covers(c0, tokens, amounts, n),
    ensures
        cur.amount_of(tokens[i]@) >= amounts[i],
{
    let t = tokens[i]@;
    assert(listed(tokens, t, n)) by {
        assert(0 <= i < n && tokens[i]@ == t);
    }
    lemma_listed_total_mono(tokens, amounts, t, i + 1, n);
    assert(listed_total(tokens, amounts, t, i + 1) == listed_total(tokens, amounts, t, i) + amounts[i]);
    if !listed(tokens, t, i) {
        lemma_unlisted_total(tokens, amounts, t, i);
        assert(cur.amount_of(t) == c0.amount_of(t));
    } else {
        assert(cur.amount_of(t) == c0.amount_of(t) - listed_total(tokens, amounts, t, i));
    }
}

/// Whether one liquidity addition of a hot zap goes through from `c` and the cache: the pool
/// exists; a simple pool takes the deposit, a minimum is given for it and each amount taken
/// meets its minimum; a stable pool has a minimum of shares and takes the amounts; and the
/// cache holds what the pool takes.
pub open spec fn zap_ok(c: &Contract, cache: TokenCache, info: AddLiquidityInfo, sender: Seq<char>, fees: AdminFees, now: u64) -> bool {
    let p = c.pools@[info.pool_id as int];
    let tokens = pool_tokens(&p);
    &&& info.pool_id < c.pools@.len()
    &&& match p {
        Pool::SimplePool(s) => {
            &&& simple_deposit_ok(&s, info.amounts@, sender)
            &&& info.min_amounts is Some
            &&& forall|i: int| 0 <= i < tokens.len() && i < info.min_amounts->0@.len()
                ==> #[trigger] deposit_take(&s, info.amounts@)[i] >= info.min_amounts->0@[i]
            &&& cache_covers(cache, tokens, deposit_take(&s, info.amounts@), tokens.len() as int)
        },
        Pool::StableSwapPool(s) => {
            &&& info.min_shares is Some
            &&& spec_add_liquidity(&s, sender, info.amounts@, info.min_shares->0 as nat, fees, now) is Ok
            &&& cache_covers(cache, tokens, info.amounts@, tokens.len() as int)
        },
    }
}

/// The first `k` liquidity additions of a hot zap went through, from `c` and `cache`, through
/// the states `cs` and the caches `caches`, and addition `k` cannot go through.
pub open spec fn zaps_stop_at(
    c: &Contract,
    cache: TokenCache,
    infos: Seq<AddLiquidityInfo>,
    sender: Seq<char>,
    fees: AdminFees,
    now: u64,
    k: int,
    cs: Seq<Contract>,
    caches: Seq<TokenCache>,
) -> bool {
    &&& 0 <= k < infos.len()
    &&& cs.len() == k + 1
    &&& caches.len() == k + 1
    &&& cs[0] == *c
    &&& caches[0] == cache
    &&& forall|q: int| 0 <= q < k ==> #[trigger] zap_step(&cs[q], &cs[q + 1], caches[q], caches[q + 1], infos[q], sender, fees, now)
    &&& !zap_ok(&cs[k], caches[k], infos[k], sender, fees, now)
}

/// Whether the liquidity additions of a hot zap reach one that cannot go through.
pub open spec fn zaps_stop(c: &Contract, cache: TokenCache, infos: Seq<AddLiquidityInfo>, sender: Seq<char>, fees: AdminFees, now: u64) -> bool {
    exists|k: int, cs: Seq<Contract>, caches: Seq<TokenCache>| #[trigger] zaps_stop_at(c, cache, infos, sender, fees, now, k, cs, caches)
}

/// A cache that holds exactly the amounts of `out`, a list of distinct tokens with positive
/// amounts.
pub open spec fn holds_out(cache: TokenCache, out: Seq<(String, u128)>) -> bool {
    &&& distinct_positive(out)
    &&& forall|i: int| 0 <= i < out.len() ==> #[trigger] cache.amount_of(out[i].0@) == out[i].1
    &&& forall|t: Seq<char>| !pair_tokens(out).contains(t) ==> #[trigger] cache.amount_of(t) == 0
}

/// Whether the account takes back what the cache kept of each token of `out`.
pub open spec fn credits_fit(a: &Account, out: Seq<(String, u128)>, fcache: TokenCache) -> bool {
    forall|i: int| 0 <= i < out.len() && #[trigger] fcache.amount_of(out[i].0@) > 0
        ==> balance_or_zero(a, out[i].0@) + fcache.amount_of(out[i].0@) <= u128::MAX
}

/// Why a hot zap fails once the exchange runs and it has swaps and additions: the swaps mix
/// types, touch a frozen token or do not start with a swap; the swaps stop at one that cannot
/// go through; the swaps go through and the additions reach one that cannot; or all goes
/// through and the account cannot take back what is left.
pub open spec fn hot_zap_fails(
    c: &Contract,
    a: &Account,
    sender: Seq<char>,
    token_in: Seq<char>,
    amount: u128,
    actions: Seq<Action>,
    infos: Seq<AddLiquidityInfo>,
    referral_id: Option<String>,
    exchange_id: String,
    now: u64,
) -> bool {
    let fees = swap_fees(c, exchange_id, None);
    ||| !all_same_action_type(actions)
    ||| (exists|t: Seq<char>| involved(actions, t) && is_frozen(c, t))
    ||| !(actions[0] is Swap)
    ||| direct_stops(c, token_in, amount, actions, referral_id, exchange_id, now)
    ||| exists|mid: Contract, out: Seq<(String, u128)>, cache0: TokenCache|
        #![trigger swapped_directly(c, &mid, token_in, amount, actions, referral_id, exchange_id, now, out), zaps_stop(&mid, cache0, infos, sender, fees, now)]
        swapped_directly(c, &mid, token_in, amount, actions, referral_id, exchange_id, now, out) && holds_out(cache0, out)
            && zaps_stop(&mid, cache0, infos, sender, fees, now)
    ||| exists|mid: Contract, out: Seq<(String, u128)>, cache0: TokenCache, fc: Contract, fcache: TokenCache, cs: Seq<Contract>, caches: Seq<TokenCache>|
        #![trigger swapped_directly(c, &mid, token_in, amount, actions, referral_id, exchange_id, now, out), zaps_trace(&mid, &fc, cache0, fcache, infos, sender, fees, now, cs, caches)]
        swapped_directly(c, &mid, token_in, amount, actions, referral_id, exchange_id, now, out) && holds_out(cache0, out)
            && zaps_trace(&mid, &fc, cache0, fcache, infos, sender, fees, now, cs, caches) && !credits_fit(a, out, fcache)
}

/// The hot zap's liquidity additions, one after the other, through the states `cs` and the
/// caches `caches`.
pub open spec fn zaps_trace(
    c: &Contract,
    fc: &Contract,
    cache: TokenCache,
    fcache: TokenCache,
    infos: Seq<AddLiquidityInfo>,
    sender: Seq<char>,
    fees: AdminFees,
    now: u64,
    cs: Seq<Contract>,
    caches: Seq<TokenCache>,
) -> bool {
    let n = infos.len();
    &&& cs.len() == n + 1
    &&& caches.len() == n + 1
    &&& cs[0] == *c
    &&& caches[0] == cache
    &&& cs[n as int] == *fc
    &&& caches[n as int] == fcache
    &&& forall|k: int| 0 <= k < n ==> #[trigger] zap_step(&cs[k], &cs[k + 1], caches[k], caches[k + 1], infos[k], sender, fees, now)
}

/// A hot zap: the swaps run on a virtual account holding `amount` of `token_in` (`c` to
/// `mid`, ending with `out`); a cache holding `out` pays for the liquidity additions (`mid` to
/// `fc`, the cache from `cache0` to `fcache`); `remain` holds what the cache keeps of each
/// token of `out`, where positive, and the sender's account gets it.
pub open spec fn zap_run(
    c: &Contract,
    fc: &Contract,
    a: &Account,
    fa: &Account,
    sender: Seq<char>,
    token_in: Seq<char>,
    amount: u128,
    actions: Seq<Action>,
    infos: Seq<AddLiquidityInfo>,
    referral_id: Option<String>,
    exchange_id: String,
    now: u64,
    remain: Seq<(String, u128)>,
    mid: Contract,
    out: Seq<(String, u128)>,
    cache0: TokenCache,
    fcache: TokenCache,
    cs: Seq<Contract>,
    caches: Seq<TokenCache>,
) -> bool {
    &&& swapped_directly(c, &mid, token_in, amount, actions, referral_id, exchange_id, now, out)
    &&& distinct_positive(out)
    &&& forall|i: int| 0 <= i < out.len() ==> #[trigger] cache0.amount_of(out[i].0@) == out[i].1
    &&& forall|t: Seq<char>| !pair_tokens(out).contains(t) ==> #[trigger] cache0.amount_of(t) == 0
    &&& zaps_trace(&mid, fc, cache0, fcache, infos, sender, swap_fees(c, exchange_id, None), now, cs, caches)
    &&& forall|i: int| 0 <= i < remain.len() ==> #[trigger] fcache.amount_of(remain[i].0@) == remain[i].1
    &&& forall|t: Seq<char>| #![trigger pair_tokens(remain).contains(t)]
        pair_tokens(out).contains(t) && fcache.amount_of(t) > 0 ==> pair_tokens(remain).contains(t)
    &&& forall|i: int| 0 <= i < remain.len() ==> #[trigger] account_balance(fa, remain[i].0@)
        == Some((balance_or_zero(a, remain[i].0@) + remain[i].1) as u128)
    &&& forall|t: Seq<char>| !pair_tokens(remain).contains(t) ==> #[trigger] account_balance(fa, t) == account_balance(a, t)
    &&& fa.near_amount == a.near_amount
}

/// Whether a hot zap ran from `c` and `a` to `fc` and `fa`, leaving `remain`.
pub open spec fn hot_zapped(
    c: &Contract,
    fc: &Contract,
    a: &Account,
    fa: &Account,
    sender: Seq<char>,
    token_in: Seq<char>,
    amount: u128,
    actions: Seq<Action>,
    infos: Seq<AddLiquidityInfo>,
    referral_id: Option<String>,
    exchange_id: String,
    now: u64,
    remain: Seq<(String, u128)>,
) -> bool {
    exists|mid: Contract, out: Seq<(String, u128)>, cache0: TokenCache, fcache: TokenCache, cs: Seq<Contract>, caches: Seq<TokenCache>|
        #[trigger] zap_run(c, fc, a, fa, sender, token_in, amount, actions, infos, referral_id, exchange_id, now, remain, mid, out, cache0, fcache, cs, caches)
}

/// For each of `tokens` with a positive balance in the account, in order, the token and its
/// balance.
pub fn positive_balances(account: &Account, tokens: &Vec<String>) -> (r: Vec<(String, u128)>)
    ensures
        pair_tokens(r@) == views_of(tokens@).filter(|t: Seq<char>| balance_or_zero(account, t) > 0),
        forall|i: int| 0 <= i < r@.len() ==> account_balance(account, #[trigger] r@[i].0@) == Some(r@[i].1) && r@[i].1 > 0,
        forall|i: int| 0 <= i < r@.len() ==> views_of(tokens@).contains(#[trigger] r@[i].0@),
        no_duplicates(views_of(tokens@)) ==> no_duplicates(pair_tokens(r@)),
{
    let ghost p = |t: Seq<char>| balance_or_zero(account, t) > 0;
    let mut kept: Vec<(String, u128)> = Vec::new();
    let mut i: usize = 0;
    while i < tokens.len()
        invariant
            i <= tokens.len(),
            p == (|t: Seq<char>| balance_or_zero(account, t) > 0),
            pair_tokens(kept@) == views_of(tokens@.subrange(0, i as int)).filter(p),
            forall|j: int| 0 <= j < kept@.len() ==> account_balance(account, #[trigger] kept@[j].0@) == Some(kept@[j].1) && kept@[j].1 > 0,
            forall|j: int| 0 <= j < kept@.len() ==> exists|k: int| 0 <= k < i && #[trigger] kept@[j].0@ == tokens@[k]@,
            no_duplicates(views_of(tokens@)) ==> no_duplicates(pair_tokens(kept@)),
        decreases tokens.len() - i,
    {
        let ghost pre = views_of(tokens@.subrange(0, i as int));
        let ghost x = tokens@[i as int]@;
        proof {
            assert(views_of(tokens@.subrange(0, i + 1)) =~= pre.push(x));
            pre.lemma_filter_push(x, p);
        }
        match account.get_balance(&tokens[i]) {
            Some(v) => {
                if v > 0 {
                    let ghost before = kept@;
                    kept.push((tokens[i].clone(), v));
                    proof {
                        assert(pair_tokens(kept@) =~= pair_tokens(before).push(x));
                        assert(kept@[before.len() as int].0@ == tokens@[i as int]@);
                        if no_duplicates(views_of(tokens@)) {
                            assert forall|a: int, b: int| 0 <= a < b < pair_tokens(kept@).len() implies pair_tokens(kept@)[a] != pair_tokens(kept@)[b] by {
                                if b == before.len() {
                                    let k = choose|k: int| 0 <= k < i && #[trigger] before[a].0@ == tokens@[k]@;
                                    assert(views_of(tokens@)[k] == tokens@[k]@);
                                    assert(views_of(tokens@)[i as int] == x);
                                }
                            }
                        }
                        assert forall|j: int| 0 <= j < kept@.len() implies exists|k: int| 0 <= k < i + 1 && #[trigger] kept@[j].0@ == tokens@[k]@ by {
                            if j < before.len() {
                                let k = choose|k: int| 0 <= k < i && #[trigger] before[j].0@ == tokens@[k]@;
                                assert(kept@[j] == before[j]);
                            } else {
                                assert(kept@[j].0@ == tokens@[i as int]@);
                            }
                        }
                    }
                }
            },
            None => {},
        }
        i = i + 1;
    }
    proof {
        assert(tokens@.subrange(0, tokens@.len() as int) == tokens@);
        assert forall|j: int| 0 <= j < kept@.len() implies views_of(tokens@).contains(#[trigger] kept@[j].0@) by {
            let k = choose|k: int| 0 <= k < tokens@.len() && #[trigger] kept@[j].0@ == tokens@[k]@;
            assert(views_of(tokens@)[k] == tokens@[k]@);
        }
    }
    kept
}

impl Contract {
    /// Executes set of actions on virtual account.
    /// Returns amounts to send to the sender directly: every token of the transfer or of the
    /// actions that the virtual account holds some of afterwards, once.
    pub fn internal_direct_actions(
        &mut self,
        token_in: &String,
        amount_in: u128,
        referral_id: &Option<String>,
        actions: &Vec<Action>,
        exchange_id: &String,
        now: u64,
    ) -> (r: Result<Vec<(String, u128)>, ExchangeError>)
        requires
            contract_wf(old(self)),
        ensures
            contract_wf(final(self)),
            final(self).pools@.len() == old(self).pools@.len(),
            actions@.len() == 0 ==> r == Err::<Vec<(String, u128)>, ExchangeError>(ExchangeError::AtLeastOneSwap),
            actions@.len() > 0 && (exists|t: Seq<char>| involved(actions@, t) && is_frozen(old(self), t))
                ==> r is Err,
            r matches Ok(out) ==> distinct_positive(out@)
                && forall|i: int| 0 <= i < out@.len() ==> (#[trigger] out@[i].0@ == token_in@ || involved(actions@, out@[i].0@)),
            r matches Ok(out) ==> swapped_directly(old(self), final(self), token_in@, amount_in, actions@, *referral_id, *exchange_id, now, out@),
            r is Err && actions@.len() > 0 && all_same_action_type(actions@) && !(exists|t: Seq<char>| involved(actions@, t) && is_frozen(old(self), t))
                && actions@[0] is Swap ==> direct_stops(old(self), token_in@, amount_in, actions@, *referral_id, *exchange_id, now),
            final(self).owner_id == old(self).owner_id,
            final(self).boost_farm_id == old(self).boost_farm_id,
            final(self).burrowland_id == old(self).burrowland_id,
            final(self).guardians@ == old(self).guardians@,
            final(self).admin_fee_bps == old(self).admin_fee_bps,
            final(self).state == old(self).state,
            final(self).frozen_tokens@ == old(self).frozen_tokens@,
            final(self).whitelisted_tokens@ == old(self).whitelisted_tokens@,
            final(self).auto_whitelisted_postfix@ == old(self).auto_whitelisted_postfix@,
            final(self).referrals@ == old(self).referrals@,
    {
        if actions.len() == 0 {
            return Err(ExchangeError::AtLeastOneSwap);
        }
        let mut account = Account::new(&String::from_str(VIRTUAL_ACC));
        account.deposit(token_in, amount_in)?;
        let ghost va0 = account;
        let referral_info = self.referral_info_of(referral_id);
        proof {
            assert(referral_known(old(self), *referral_id, referral_info));
        }
        let prev = match &actions[0] {
            Action::SwapByOutput(_) => ActionResult::Nothing,
            Action::Swap(_) => ActionResult::Amount(amount_in),
        };
        proof {
            assert(va0.tokens@ =~= Map::<Seq<char>, u128>::empty().insert(token_in@, amount_in));
        }
        let res = match self.internal_execute_actions(&mut account, &referral_info, actions, prev, exchange_id, now) {
            Ok(v) => v,
            Err(e) => {
                proof {
                    if actions@[0] is Swap && all_same_action_type(actions@) && !(exists|t: Seq<char>| involved(actions@, t) && is_frozen(old(self), t)) {
                        assert(prev == ActionResult::Amount(amount_in));
                        assert(run_stops(old(self), &va0, actions@, ActionResult::Amount(amount_in), swap_fees(old(self), *exchange_id, referral_info), now));
                    }
                }
                return Err(e);
            },
        };
        let ghost vaf = account;
        let mut candidates: Vec<String> = Vec::new();
        candidates.push(token_in.clone());
        let involved_tokens = get_tokens_in_actions(actions);
        let ghost first = candidates@;
        proof {
            assert(views_of(first) =~= seq![token_in@]);
        }
        extend_set(&mut candidates, &involved_tokens);
        let out = positive_balances(&account, &candidates);
        proof {
            assert(no_duplicates(views_of(first)));
            assert forall|i: int| 0 <= i < out@.len() implies #[trigger] out@[i].1 > 0 by {
                assert(account_balance(&account, out@[i].0@) == Some(out@[i].1));
            }
            assert forall|i: int| 0 <= i < out@.len() implies (#[trigger] out@[i].0@ == token_in@ || involved(actions@, out@[i].0@)) by {
                let t = out@[i].0@;
                assert(views_of(candidates@).contains(t));
                if !views_of(first).contains(t) {
                    assert(views_of(involved_tokens@).contains(t));
                } else {
                    let k = choose|k: int| 0 <= k < views_of(first).len() && views_of(first)[k] == t;
                    assert(views_of(first)[0] == token_in@);
                }
            }
            assert forall|t: Seq<char>| #![trigger pair_tokens(out@).contains(t)]
                (t == token_in@ || involved(actions@, t)) && balance_or_zero(&vaf, t) > 0 implies pair_tokens(out@).contains(t) by {
                if t == token_in@ {
                    assert(views_of(first)[0] == t);
                    assert(views_of(first).contains(t));
                }
                assert(views_of(candidates@).contains(t));
                let k = choose|k: int| 0 <= k < views_of(candidates@).len() && views_of(candidates@)[k] == t;
                views_of(candidates@).lemma_filter_contains(|u: Seq<char>| balance_or_zero(&account, u) > 0, k);
            }
            assert(va0.tokens@ =~= Map::<Seq<char>, u128>::empty().insert(token_in@, amount_in));
            assert(ran_direct(old(self), self, token_in@, amount_in, actions@, *referral_id, *exchange_id, now, out@, va0, vaf, referral_info, res));
        }
        Ok(out)
    }

    /// Runs actions on a virtual account funded from the caller's deposits: each of
    /// `use_tokens` is taken from the account, the actions run, and every token the virtual
    /// account then holds goes back to the account. Returns those amounts. Without an attached
    /// deposit, every token involved must be registered in the account or whitelisted.
    pub fn execute_actions_in_va(
        &mut self,
        account: &mut Account,
        use_tokens: &Vec<(String, u128)>,
        actions: &Vec<Action>,
        referral_id: &Option<String>,
        attached_deposit: u128,
        exchange_id: &String,
        now: u64,
    ) -> (r: Result<Vec<(String, u128)>, ExchangeError>)
        requires
            contract_wf(old(self)),
        ensures
            contract_wf(final(self)),
            final(self).pools@.len() == old(self).pools@.len(),
            old(self).state != RunningState::Running ==> r == Err::<Vec<(String, u128)>, ExchangeError>(ExchangeError::ContractPaused),
            old(self).state == RunningState::Running && actions@.len() == 0 ==> r == Err::<Vec<(String, u128)>, ExchangeError>(ExchangeError::AtLeastOneSwap),
            old(self).state == RunningState::Running && actions@.len() > 0 && attached_deposit == 0
                && !(forall|t: Seq<char>| involved(actions@, t) ==> account_balance(old(account), t) is Some || is_whitelisted(old(self), t))
                ==> r == Err::<Vec<(String, u128)>, ExchangeError>(ExchangeError::DepositNeeded),
            r matches Ok(out) ==> distinct_positive(out@)
                && forall|i: int| 0 <= i < out@.len() ==> (pair_tokens(use_tokens@).contains(#[trigger] out@[i].0@) || involved(actions@, out@[i].0@)),
            r is Ok ==> forall|t: Seq<char>| !pair_tokens(use_tokens@).contains(t) && !involved(actions@, t)
                ==> #[trigger] account_balance(final(account), t) == account_balance(old(account), t),
            r is Ok ==> final(account).near_amount == old(account).near_amount,
            r matches Ok(out) ==> swapped_in_va(old(self), final(self), old(account), final(account), use_tokens@, actions@, *referral_id, *exchange_id, now, out@),
            old(self).state == RunningState::Running && actions@.len() > 0
                && (attached_deposit > 0 || forall|t: Seq<char>| involved(actions@, t) ==> account_balance(old(account), t) is Some || is_whitelisted(old(self), t))
                && r is Err ==> va_run_fails(old(self), old(account), use_tokens@, actions@, *referral_id, *exchange_id, now),
    {
        self.assert_contract_running()?;
        if actions.len() == 0 {
            return Err(ExchangeError::AtLeastOneSwap);
        }
        // Validate that all tokens are whitelisted if no deposit (e.g. trade with access key).
        if attached_deposit == 0 {
            self.assert_tokens_usable(account, actions)?;
        }
        let mut va = Account::new(&String::from_str(VIRTUAL_ACC));
        let ghost ve = va;
        let referral_info = self.referral_info_of(referral_id);
        proof {
            assert(referral_known(old(self), *referral_id, referral_info));
        }
        let ghost ids = pair_ids(use_tokens@);
        let ghost amts = pair_amounts(use_tokens@);
        let mut used: Vec<String> = Vec::new();
        let mut i: usize = 0;
        while i < use_tokens.len()
            invariant
                i <= use_tokens.len(),
                *self == *old(self),
                contract_wf(self),
                self.state == RunningState::Running,
                actions@.len() > 0,
                attached_deposit == 0 ==> forall|t: Seq<char>| involved(actions@, t) ==> account_balance(old(account), t) is Some || is_whitelisted(old(self), t),
                views_of(used@) == pair_tokens(use_tokens@.subrange(0, i as int)),
                forall|t: Seq<char>| !pair_tokens(use_tokens@.subrange(0, i as int)).contains(t)
                    ==> #[trigger] account_balance(account, t) == account_balance(old(account), t),
                account.near_amount == old(account).near_amount,
                empty_account(&ve),
                ids == pair_ids(use_tokens@),
                amts == pair_amounts(use_tokens@),
                referral_known(old(self), *referral_id, referral_info),
                deposited_all(&ve, &va, ids, amts, i as int),
                withdrawn_all(old(account), account, ids, amts, i as int),
            decreases use_tokens.len() - i,
        {
            let ghost before = *account;
            let ghost vbefore = va;
            let ghost t = use_tokens@[i as int].0@;
            proof {
                assert(ids[i as int] == use_tokens@[i as int].0);
                assert(amts[i as int] == use_tokens@[i as int].1);
            }
            match account.withdraw(&use_tokens[i].0, use_tokens[i].1) {
                Ok(()) => {},
                Err(e) => {
                    proof {
                        if can_withdraw_all(old(account), ids, amts, use_tokens@.len() as int) {
                            lemma_can_withdraw_next(old(account), &before, ids, amts, i as int, use_tokens@.len() as int);
                        }
                    }
                    return Err(e);
                },
            }
            match va.deposit(&use_tokens[i].0, use_tokens[i].1) {
                Ok(()) => {},
                Err(e) => {
                    proof {
                        if can_deposit_all(&ve, ids, amts, use_tokens@.len() as int) {
                            lemma_can_deposit_next(&ve, &vbefore, ids, amts, i as int, use_tokens@.len() as int);
                        }
                        assert(empty_account(&ve));
                    }
                    return Err(e);
                },
            }
            used.push(use_tokens[i].0.clone());
            proof {
                assert(ids[i as int] == use_tokens@[i as int].0);
                assert(amts[i as int] == use_tokens@[i as int].1);
                lemma_withdrawn_all_step(old(account), &before, account, ids, amts, i as int);
                lemma_deposited_all_step(&ve, &vbefore, &va, ids, amts, i as int);
                assert(pair_tokens(use_tokens@.subrange(0, i + 1)) =~= pair_tokens(use_tokens@.subrange(0, i as int)).push(t));
                assert(views_of(used@) =~= pair_tokens(use_tokens@.subrange(0, i + 1)));
                assert forall|u: Seq<char>| !pair_tokens(use_tokens@.subrange(0, i + 1)).contains(u)
                    implies #[trigger] account_balance(account, u) == account_balance(old(account), u) by {
                    vstd::seq_lib::lemma_seq_contains_after_push(pair_tokens(use_tokens@.subrange(0, i as int)), t, u);
                    assert(account_balance(account, u) == account_balance(&before, u));
                }
            }
            i = i + 1;
        }
        proof {
            assert(use_tokens@.subrange(0, use_tokens@.len() as int) == use_tokens@);
        }
        let ghost va0 = va;
        let ghost mid = *account;
        let res = match self.internal_execute_actions(&mut va, &referral_info, actions, ActionResult::Nothing, exchange_id, now) {
            Ok(res) => res,
            Err(e) => {
                proof {
                    if all_same_action_type(actions@) && !(exists|t: Seq<char>| involved(actions@, t) && is_frozen(old(self), t)) && actions@[0] is Swap {
                        assert(run_stops(old(self), &va0, actions@, ActionResult::Nothing, swap_fees(old(self), *exchange_id, referral_info), now));
                        assert(empty_account(&ve));
                    }
                }
                return Err(e);
            },
        };
        let ghost vaf = va;
        let ghost fc = *self;
        let involved_tokens = get_tokens_in_actions(actions);
        let mut candidates: Vec<String> = Vec::new();
        proof {
            assert(no_duplicates(views_of(candidates@)));
            assert(views_of(candidates@) =~= Seq::<Seq<char>>::empty());
        }
        extend_set(&mut candidates, &used);
        extend_set(&mut candidates, &involved_tokens);
        let out = positive_balances(&va, &candidates);
        proof {
            assert forall|j: int| 0 <= j < out@.len() implies #[trigger] out@[j].1 > 0 by {
                assert(account_balance(&va, out@[j].0@) == Some(out@[j].1));
            }
            assert forall|j: int| 0 <= j < out@.len() implies (pair_tokens(use_tokens@).contains(#[trigger] out@[j].0@) || involved(actions@, out@[j].0@)) by {
                assert(views_of(candidates@).contains(out@[j].0@));
            }
            assert forall|t: Seq<char>| #![trigger pair_tokens(out@).contains(t)]
                (pair_tokens(use_tokens@).contains(t) || involved(actions@, t)) && balance_or_zero(&vaf, t) > 0 implies pair_tokens(out@).contains(t) by {
                assert(views_of(candidates@).contains(t));
                let k = choose|k: int| 0 <= k < views_of(candidates@).len() && views_of(candidates@)[k] == t;
                views_of(candidates@).lemma_filter_contains(|u: Seq<char>| balance_or_zero(&va, u) > 0, k);
            }
        }
        let mut j: usize = 0;
        while j < out.len()
            invariant
                j <= out.len(),
                contract_wf(self),
                self.pools@.len() == old(self).pools@.len(),
                old(self).state == RunningState::Running,
                actions@.len() > 0,
                attached_deposit == 0 ==> forall|t: Seq<char>| involved(actions@, t) ==> account_balance(old(account), t) is Some || is_whitelisted(old(self), t),
                forall|t: Seq<char>| !pair_tokens(out@.subrange(0, j as int)).contains(t)
                    ==> #[trigger] account_balance(account, t) == account_balance(&mid, t),
                account.near_amount == mid.near_amount,
                deposited_all(&mid, account, pair_ids(out@), pair_amounts(out@), j as int),
                empty_account(&ve),
                deposited_all(&ve, &va0, pair_ids(use_tokens@), pair_amounts(use_tokens@), use_tokens@.len() as int),
                referral_known(old(self), *referral_id, referral_info),
                ran_actions(old(self), &fc, &va0, &vaf, actions@, ActionResult::Nothing, swap_fees(old(self), *exchange_id, referral_info), now, res),
                withdrawn_all(old(account), &mid, pair_ids(use_tokens@), pair_amounts(use_tokens@), use_tokens@.len() as int),
                forall|k: int| 0 <= k < out@.len() ==> account_balance(&vaf, #[trigger] out@[k].0@) == Some(out@[k].1),
                forall|t: Seq<char>| #![trigger pair_tokens(out@).contains(t)]
                    (pair_tokens(use_tokens@).contains(t) || involved(actions@, t)) && balance_or_zero(&vaf, t) > 0 ==> pair_tokens(out@).contains(t),
            decreases out.len() - j,
        {
            let ghost before = *account;
            let ghost t = out@[j as int].0@;
            match account.deposit(&out[j].0, out[j].1) {
                Ok(()) => {},
                Err(e) => {
                    proof {
                        assert(pair_ids(out@)[j as int] == out@[j as int].0);
                        assert(pair_amounts(out@)[j as int] == out@[j as int].1);
                        if can_deposit_all(&mid, pair_ids(out@), pair_amounts(out@), out@.len() as int) {
                            lemma_can_deposit_next(&mid, &before, pair_ids(out@), pair_amounts(out@), j as int, out@.len() as int);
                        }
                        assert(ran_actions(old(self), &fc, &va0, &vaf, actions@, ActionResult::Nothing, swap_fees(old(self), *exchange_id, referral_info), now, res));
                        assert(!can_deposit_all(&mid, pair_ids(out@), pair_amounts(out@), out@.len() as int));
                    }
                    return Err(e);
                },
            }
            proof {
                assert(pair_ids(out@)[j as int] == out@[j as int].0);
                assert(pair_amounts(out@)[j as int] == out@[j as int].1);
                lemma_deposited_all_step(&mid, &before, account, pair_ids(out@), pair_amounts(out@), j as int);
                assert(pair_tokens(out@.subrange(0, j + 1)) =~= pair_tokens(out@.subrange(0, j as int)).push(t));
                assert forall|u: Seq<char>| !pair_tokens(out@.subrange(0, j + 1)).contains(u)
                    implies #[trigger] account_balance(account, u) == account_balance(&mid, u) by {
                    vstd::seq_lib::lemma_seq_contains_after_push(pair_tokens(out@.subrange(0, j as int)), t, u);
                    assert(account_balance(account, u) == account_balance(&before, u));
                }
            }
            j = j + 1;
        }
        proof {
            assert(out@.subrange(0, out@.len() as int) == out@);
            assert forall|t: Seq<char>| !pair_tokens(use_tokens@).contains(t) && !involved(actions@, t)
                implies #[trigger] account_balance(account, t) == account_balance(old(account), t) by {
                if pair_tokens(out@).contains(t) {
                    let q = choose|q: int| 0 <= q < pair_tokens(out@).len() && pair_tokens(out@)[q] == t;
                    assert(out@[q].0@ == t);
                }
                assert(account_balance(&mid, t) == account_balance(old(account), t));
            }
            assert(ran_in_va(old(self), self, old(account), account, use_tokens@, actions@, *referral_id, *exchange_id, now, out@, ve, va0, vaf, mid, referral_info, res));
        }
        Ok(out)
    }

    /// A transfer without a message: credited to the sender's account, which `registered` says
    /// the exchange holds, where the token is not frozen and is whitelisted or registered there.
    pub fn ft_on_transfer_deposit(&self, sender: &mut Account, registered: bool, token_in: &String, amount: u128) -> (r: Result<(), ExchangeError>)
        ensures
            self.state != RunningState::Running ==> r == Err::<(), ExchangeError>(ExchangeError::ContractPaused),
            self.state == RunningState::Running && is_frozen(self, token_in@) ==> r == Err::<(), ExchangeError>(ExchangeError::FrozenToken),
            self.state == RunningState::Running && !is_frozen(self, token_in@) && !registered
                ==> r == Err::<(), ExchangeError>(ExchangeError::AccountNotRegistered),
            self.state == RunningState::Running && !is_frozen(self, token_in@) && registered
                && !is_whitelisted(self, token_in@)
                && account_balance(old(sender), token_in@) is None ==> r == Err::<(), ExchangeError>(ExchangeError::TokenNotWhitelisted),
            r is Ok ==> account_balance(final(sender), token_in@) == Some((balance_or_zero(old(sender), token_in@) + amount) as u128)
                && forall|t: Seq<char>| t != token_in@ ==> #[trigger] account_balance(final(sender), t) == account_balance(old(sender), t),
            r is Ok ==> final(sender).near_amount == old(sender).near_amount,
            self.state == RunningState::Running && !is_frozen(self, token_in@) && registered
                && (is_whitelisted(self, token_in@)
                    || account_balance(old(sender), token_in@) is Some)
                && balance_or_zero(old(sender), token_in@) + amount <= u128::MAX ==> r is Ok,
            r is Err ==> final(sender).tokens@ == old(sender).tokens@ && final(sender).legacy_tokens@ == old(sender).legacy_tokens@
                && final(sender).near_amount == old(sender).near_amount,
    {
        self.assert_contract_running()?;
        let tokens = vec![token_in.clone()];
        match self.assert_no_frozen_tokens(&tokens) {
            Ok(()) => {},
            Err(e) => {
                assert(tokens@[0]@ == token_in@);
                return Err(e);
            },
        }
        assert(tokens@[0]@ == token_in@);
        if !registered {
            return Err(ExchangeError::AccountNotRegistered);
        }
        self.internal_deposit(sender, token_in, amount)
    }

    /// A transfer that runs a chain of swaps: what they give goes back to the sender. A sender
    /// that is the burrowland contract, asking for an echo, must get exactly one token back.
    pub fn ft_on_transfer_execute(
        &mut self,
        sender_id: &String,
        token_in: &String,
        amount: u128,
        referral_id: &Option<String>,
        actions: &Vec<Action>,
        client_echo: &Option<String>,
        exchange_id: &String,
        now: u64,
    ) -> (r: Result<Vec<(String, u128)>, ExchangeError>)
        requires
            contract_wf(old(self)),
        ensures
            contract_wf(final(self)),
            final(self).pools@.len() == old(self).pools@.len(),
            old(self).state != RunningState::Running ==> r == Err::<Vec<(String, u128)>, ExchangeError>(ExchangeError::ContractPaused),
            old(self).state == RunningState::Running && actions@.len() == 0 ==> r == Err::<Vec<(String, u128)>, ExchangeError>(ExchangeError::AtLeastOneSwap) && *final(self) == *old(self),
            r matches Ok(out) ==> distinct_positive(out@)
                && forall|i: int| 0 <= i < out@.len() ==> (#[trigger] out@[i].0@ == token_in@ || involved(actions@, out@[i].0@)),
            r matches Ok(out) ==> (client_echo is Some && sender_id@ == old(self).burrowland_id@ ==> out@.len() == 1),
            r matches Ok(out) ==> swapped_directly(old(self), final(self), token_in@, amount, actions@, *referral_id, *exchange_id, now, out@),
            r is Err && old(self).state == RunningState::Running && actions@.len() > 0 && all_same_action_type(actions@)
                && !(exists|t: Seq<char>| involved(actions@, t) && is_frozen(old(self), t)) && actions@[0] is Swap
                && !(client_echo is Some && sender_id@ == old(self).burrowland_id@)
                ==> direct_stops(old(self), token_in@, amount, actions@, *referral_id, *exchange_id, now),
    {
        self.assert_contract_running()?;
        if actions.len() == 0 {
            return Err(ExchangeError::AtLeastOneSwap);
        }
        let out = self.internal_direct_actions(token_in, amount, referral_id, actions, exchange_id, now)?;
        if client_echo.is_some() && *sender_id == self.burrowland_id && out.len() != 1 {
            return Err(ExchangeError::OneOutTokenOnly);
        }
        Ok(out)
    }

    /// A transfer that runs a chain of swaps and adds their results to pools as liquidity for
    /// the sender: simple pools keep balanced amounts, each at least its minimum; stable pools
    /// mint at least the minimum shares. What the pools do not take is credited to the
    /// sender's account, which `registered` says the exchange holds, and returned. The NEAR for
    /// the storage the additions take is then paid from that account with
    /// `Account::pay_storage_growth`.
    #[verifier::rlimit(60)]
    pub fn ft_on_transfer_hot_zap(
        &mut self,
        sender_id: &String,
        sender: &mut Account,
        registered: bool,
        token_in: &String,
        amount: u128,
        referral_id: &Option<String>,
        hot_zap_actions: &Vec<Action>,
        add_liquidity_infos: &Vec<AddLiquidityInfo>,
        exchange_id: &String,
        now: u64,
    ) -> (r: Result<Vec<(String, u128)>, ExchangeError>)
        requires
            contract_wf(old(self)),
        ensures
            contract_wf(final(self)),
            final(self).pools@.len() == old(self).pools@.len(),
            old(self).state != RunningState::Running ==> r == Err::<Vec<(String, u128)>, ExchangeError>(ExchangeError::ContractPaused),
            old(self).state == RunningState::Running && (hot_zap_actions@.len() == 0 || add_liquidity_infos@.len() == 0)
                ==> r == Err::<Vec<(String, u128)>, ExchangeError>(ExchangeError::EmptyHotZap) && *final(self) == *old(self) && *final(sender) == *old(sender),
            r matches Ok(remain) ==> distinct_positive(remain@),
            r matches Ok(remain) ==> hot_zapped(old(self), final(self), old(sender), final(sender), sender_id@, token_in@, amount,
                hot_zap_actions@, add_liquidity_infos@, *referral_id, *exchange_id, now, remain@),
            old(self).state == RunningState::Running && hot_zap_actions@.len() > 0 && add_liquidity_infos@.len() > 0 && !registered
                ==> r == Err::<Vec<(String, u128)>, ExchangeError>(ExchangeError::AccountNotRegistered) && *final(self) == *old(self) && *final(sender) == *old(sender),
            r is Err && old(self).state == RunningState::Running && hot_zap_actions@.len() > 0 && add_liquidity_infos@.len() > 0 && registered
                ==> hot_zap_fails(old(self), old(sender), sender_id@, token_in@, amount, hot_zap_actions@, add_liquidity_infos@,
                    *referral_id, *exchange_id, now),
    {
        self.assert_contract_running()?;
        if hot_zap_actions.len() == 0 || add_liquidity_infos.len() == 0 {
            return Err(ExchangeError::EmptyHotZap);
        }
        if !registered {
            return Err(ExchangeError::AccountNotRegistered);
        }
        let out = match self.internal_direct_actions(token_in, amount, referral_id, hot_zap_actions, exchange_id, now) {
            Ok(v) => v,
            Err(e) => {
                return Err(e);
            },
        };
        let ghost mid = *self;
        let mut cache = TokenCache::new();
        let mut i: usize = 0;
        while i < out.len()
            invariant
                i <= out.len(),
                distinct_positive(out@),
                forall|j: int| i <= j < out@.len() ==> #[trigger] cache.amount_of(out@[j].0@) == 0,
                forall|j: int| 0 <= j < i ==> #[trigger] cache.amount_of(out@[j].0@) == out@[j].1,
                forall|t: Seq<char>| !pair_tokens(out@.subrange(0, i as int)).contains(t) ==> #[trigger] cache.amount_of(t) == 0,
            decreases out.len() - i,
        {
            let ghost before = cache;
            let ghost t = out@[i as int].0@;
            cache.add(&out[i].0, out[i].1);
            proof {
                assert forall|j: int| i + 1 <= j < out@.len() implies #[trigger] cache.amount_of(out@[j].0@) == 0 by {
                    assert(pair_tokens(out@)[j] != pair_tokens(out@)[i as int]);
                    assert(before.amount_of(out@[j].0@) == 0);
                }
                assert forall|j: int| 0 <= j < i + 1 implies #[trigger] cache.amount_of(out@[j].0@) == out@[j].1 by {
                    if j < i {
                        assert(pair_tokens(out@)[j] != pair_tokens(out@)[i as int]);
                        assert(before.amount_of(out@[j].0@) == out@[j].1);
                    }
                }
                assert(pair_tokens(out@.subrange(0, i + 1)) =~= pair_tokens(out@.subrange(0, i as int)).push(t));
                assert forall|u: Seq<char>| !pair_tokens(out@.subrange(0, i + 1)).contains(u) implies #[trigger] cache.amount_of(u) == 0 by {
                    vstd::seq_lib::lemma_seq_contains_after_push(pair_tokens(out@.subrange(0, i as int)), t, u);
                    assert(before.amount_of(u) == 0);
                }
            }
            i = i + 1;
        }
        proof {
            assert(out@.subrange(0, out@.len() as int) == out@);
        }
        let ghost cache0 = cache;
        let fees = AdminFees::new(self.admin_fee_bps, exchange_id.clone());
        proof {
            assert(fees == swap_fees(old(self), *exchange_id, None));
        }
        let ghost mut cs: Seq<Contract> = seq![*self];
        let ghost mut caches: Seq<TokenCache> = seq![cache];
        let mut k: usize = 0;
        while k < add_liquidity_infos.len()
            invariant
                contract_wf(self),
                self.pools@.len() == old(self).pools@.len(),
                old(self).state == RunningState::Running,
                hot_zap_actions@.len() > 0,
                add_liquidity_infos@.len() > 0,
                registered,
                k <= add_liquidity_infos.len(),
                cs.len() == k + 1,
                caches.len() == k + 1,
                cs[0] == mid,
                caches[0] == cache0,
                cs[k as int] == *self,
                caches[k as int] == cache,
                forall|q: int| 0 <= q < k ==> #[trigger] zap_step(&cs[q], &cs[q + 1], caches[q], caches[q + 1], add_liquidity_infos@[q], sender_id@, fees, now),
                fees == swap_fees(old(self), *exchange_id, None),
                swapped_directly(old(self), &mid, token_in@, amount, hot_zap_actions@, *referral_id, *exchange_id, now, out@),
                holds_out(cache0, out@),
            decreases add_liquidity_infos.len() - k,
        {
            let info = &add_liquidity_infos[k];
            if info.pool_id >= self.pools.len() as u64 {
                proof {
                    assert(zaps_stop_at(&mid, cache0, add_liquidity_infos@, sender_id@, fees, now, k as int, cs, caches));
                    assert(zaps_stop(&mid, cache0, add_liquidity_infos@, sender_id@, fees, now));
                }
                return Err(ExchangeError::NoPool);
            }
            let idx = info.pool_id as usize;
            let ghost c_before = *self;
            let ghost cache_before = cache;
            let ghost pools_before = self.pools@;
            let mut pool = self.pools.remove(idx);
            assert(pool == pools_before[idx as int]);
            assert(pool_wf(&pool));
            let ghost p0 = pool;
            let mut amounts = info.amounts.clone();
            proof {
                assert(amounts@ =~= info.amounts@);
            }
            let res: Result<(), ExchangeError> = match pool {
                Pool::SimplePool(_) => match pool.add_liquidity(sender_id, &mut amounts) {
                    Ok(_) => match &info.min_amounts {
                        None => Err(ExchangeError::NeedMinAmounts),
                        Some(mins) => {
                            // Check that all amounts are above request min amounts in case of front running that changes the exchange rate.
                            let mut q: usize = 0;
                            let mut ok = true;
                            while q < amounts.len() && q < mins.len()
                                invariant
                                    q <= amounts.len(),
                                    q <= mins.len(),
                                    ok ==> forall|j: int| 0 <= j < q ==> #[trigger] amounts@[j] >= mins@[j],
                                    !ok ==> exists|j: int| 0 <= j < q && #[trigger] amounts@[j] < mins@[j],
                                decreases amounts.len() - q,
                            {
                                if amounts[q] < mins[q] {
                                    ok = false;
                                }
                                q = q + 1;
                            }
                            if ok {
                                Ok(())
                            } else {
                                Err(ExchangeError::BelowMinAmount)
                            }
                        },
                    },
                    Err(e) => Err(e),
                },
                Pool::StableSwapPool(_) => match info.min_shares {
                    None => Err(ExchangeError::NeedMinShares),
                    Some(min_shares) => match pool.add_stable_liquidity(sender_id, &amounts, min_shares, &fees, now) {
                        Ok(_) => Ok(()),
                        Err(e) => Err(e),
                    },
                },
            };
            let ghost p1 = pool;
            self.pools.insert(idx, pool);
            proof {
                assert(self.pools@[idx as int] == p1);
                assert forall|j: int| 0 <= j < self.pools@.len() implies #[trigger] pool_wf(&self.pools@[j]) by {
                    if j != idx {
                        assert(self.pools@[j] == pools_before[j]);
                    }
                }
                assert forall|j: int| 0 <= j < c_before.pools@.len() && j != idx implies #[trigger] self.pools@[j] == c_before.pools@[j] by {
                }
            }
            match res {
                Ok(()) => {},
                Err(e) => {
                    proof {
                        assert(*info == add_liquidity_infos@[k as int]);
                        assert(c_before.pools@[idx as int] == p0);
                        if zap_ok(&c_before, cache_before, *info, sender_id@, fees, now) {
                            if p0 is SimplePool {
                                let s0 = p0->SimplePool_0;
                                assert(simple_deposit_ok(&s0, info.amounts@, sender_id@));
                                assert(amounts@ =~= deposit_take(&s0, info.amounts@));
                                assert(false);
                            } else {
                                assert(false);
                            }
                        }
                        assert(zaps_stop_at(&mid, cache0, add_liquidity_infos@, sender_id@, fees, now, k as int, cs, caches));
                        assert(zaps_stop(&mid, cache0, add_liquidity_infos@, sender_id@, fees, now));
                    }
                    return Err(e);
                },
            }
            let tokens = self.pools[idx].tokens();
            proof {
                assert(tokens@ == pool_tokens(&p0));
                if p0 is SimplePool {
                    assert(amounts@ =~= taken(&p0, &p1));
                    assert(amounts@ =~= deposit_take(&p0->SimplePool_0, info.amounts@));
                }
            }
            let mut q: usize = 0;
            while q < tokens.len() && q < amounts.len()
                invariant
                    contract_wf(self),
                    self.pools@.len() == old(self).pools@.len(),
                    old(self).state == RunningState::Running,
                    hot_zap_actions@.len() > 0,
                    add_liquidity_infos@.len() > 0,
                    registered,
                    tokens@ == pool_tokens(&p0),
                    amounts@.len() == tokens@.len(),
                    q <= tokens.len(),
                    cache_taken(cache_before, cache, tokens@, amounts@, q as int),
                    k < add_liquidity_infos.len(),
                    cs.len() == k + 1,
                    caches.len() == k + 1,
                    cs[0] == mid,
                    caches[0] == cache0,
                    cs[k as int] == c_before,
                    caches[k as int] == cache_before,
                    forall|q: int| 0 <= q < k ==> #[trigger] zap_step(&cs[q], &cs[q + 1], caches[q], caches[q + 1], add_liquidity_infos@[q], sender_id@, fees, now),
                    *info == add_liquidity_infos@[k as int],
                    idx == info.pool_id,
                    idx < c_before.pools@.len(),
                    c_before.pools@[idx as int] == p0,
                    p0 is SimplePool ==> amounts@ == deposit_take(&p0->SimplePool_0, info.amounts@),
                    p0 is StableSwapPool ==> amounts@ == info.amounts@,
                    fees == swap_fees(old(self), *exchange_id, None),
                    swapped_directly(old(self), &mid, token_in@, amount, hot_zap_actions@, *referral_id, *exchange_id, now, out@),
                    holds_out(cache0, out@),
                decreases tokens.len() - q,
            {
                let ghost cur = cache;
                match cache.sub(&tokens[q], amounts[q]) {
                    Ok(()) => {},
                    Err(e) => {
                        proof {
                            if zap_ok(&c_before, cache_before, *info, sender_id@, fees, now) {
                                lemma_cache_covers_next(cache_before, cur, tokens@, amounts@, q as int, tokens@.len() as int);
                            }
                            assert(zaps_stop_at(&mid, cache0, add_liquidity_infos@, sender_id@, fees, now, k as int, cs, caches));
                            assert(zaps_stop(&mid, cache0, add_liquidity_infos@, sender_id@, fees, now));
                        }
                        return Err(e);
                    },
                }
                proof {
                    let tok = tokens@[q as int]@;
                    assert forall|t: Seq<char>| t != tok implies #[trigger] cache.amount_of(t) == cur.amount_of(t) by {
                        assert(cache.0@.contains_key(t) == cur.0@.contains_key(t));
                    }
                    lemma_cache_taken_step(cache_before, cur, cache, tokens@, amounts@, q as int);
                }
                q = q + 1;
            }
            proof {
                assert(zap_step(&c_before, self, cache_before, cache, add_liquidity_infos@[k as int], sender_id@, fees, now));
                let cs1 = cs.push(*self);
                let caches1 = caches.push(cache);
                assert forall|q: int| 0 <= q < k + 1 implies #[trigger] zap_step(&cs1[q], &cs1[q + 1], caches1[q], caches1[q + 1], add_liquidity_infos@[q], sender_id@, fees, now) by {
                    if q < k {
                        assert(cs1[q] == cs[q] && cs1[q + 1] == cs[q + 1]);
                        assert(caches1[q] == caches[q] && caches1[q + 1] == caches[q + 1]);
                    } else {
                        assert(cs1[q] == c_before && cs1[q + 1] == *self);
                        assert(caches1[q] == cache_before && caches1[q + 1] == cache);
                    }
                }
                cs = cs1;
                caches = caches1;
            }
            k = k + 1;
        }
        let ghost fcache = cache;
        let ghost fself = *self;
        proof {
            assert(zaps_trace(&mid, &fself, cache0, fcache, add_liquidity_infos@, sender_id@, fees, now, cs, caches));
        }
        let mut remain: Vec<(String, u128)> = Vec::new();
        let mut i: usize = 0;
        while i < out.len()
            invariant
                i <= out.len(),
                distinct_positive(out@),
                distinct_positive(remain@),
                contract_wf(self),
                self.pools@.len() == old(self).pools@.len(),
                old(self).state == RunningState::Running,
                hot_zap_actions@.len() > 0,
                add_liquidity_infos@.len() > 0,
                registered,
                cache == fcache,
                forall|j: int| 0 <= j < remain@.len() ==> exists|q: int| 0 <= q < i && #[trigger] remain@[j].0@ == out@[q].0@,
                forall|j: int| 0 <= j < remain@.len() ==> #[trigger] fcache.amount_of(remain@[j].0@) == remain@[j].1,
                forall|j: int| 0 <= j < i && fcache.amount_of(out@[j].0@) > 0 ==> pair_tokens(remain@).contains(#[trigger] out@[j].0@),
                forall|j: int| 0 <= j < remain@.len() ==> #[trigger] account_balance(sender, remain@[j].0@)
                    == Some((balance_or_zero(old(sender), remain@[j].0@) + remain@[j].1) as u128),
                forall|t: Seq<char>| !pair_tokens(remain@).contains(t) ==> #[trigger] account_balance(sender, t) == account_balance(old(sender), t),
                sender.near_amount == old(sender).near_amount,
                fees == swap_fees(old(self), *exchange_id, None),
                swapped_directly(old(self), &mid, token_in@, amount, hot_zap_actions@, *referral_id, *exchange_id, now, out@),
                holds_out(cache0, out@),
                zaps_trace(&mid, &fself, cache0, fcache, add_liquidity_infos@, sender_id@, fees, now, cs, caches),
            decreases out.len() - i,
        {
            let v = cache.get(&out[i].0);
            if v > 0 {
                let ghost before_acc = *sender;
                let ghost before = remain@;
                let ghost t = out@[i as int].0@;
                proof {
                    if pair_tokens(before).contains(t) {
                        let j = choose|j: int| 0 <= j < pair_tokens(before).len() && pair_tokens(before)[j] == t;
                        let q = choose|q: int| 0 <= q < i && #[trigger] before[j].0@ == out@[q].0@;
                        assert(pair_tokens(out@)[q] == pair_tokens(out@)[i as int]);
                    }
                }
                match sender.deposit(&out[i].0, v) {
                    Ok(()) => {},
                    Err(e) => {
                        proof {
                            assert(!pair_tokens(before).contains(t));
                            assert(account_balance(&before_acc, t) == account_balance(old(sender), t));
                            assert(fcache.amount_of(out@[i as int].0@) > 0);
                            assert(!credits_fit(old(sender), out@, fcache));
                        }
                        return Err(e);
                    },
                }
                remain.push((out[i].0.clone(), v));
                proof {
                    assert(pair_tokens(remain@) =~= pair_tokens(before).push(t));
                    assert(account_balance(&before_acc, t) == account_balance(old(sender), t));
                    assert forall|a: int, b: int| 0 <= a < b < pair_tokens(remain@).len() implies pair_tokens(remain@)[a] != pair_tokens(remain@)[b] by {
                        if b == before.len() {
                            assert(pair_tokens(before)[a] == before[a].0@);
                        } else {
                            assert(pair_tokens(before)[a] != pair_tokens(before)[b]);
                        }
                    }
                    assert forall|j: int| 0 <= j < remain@.len() implies #[trigger] remain@[j].1 > 0 by {
                        if j < before.len() {
                            assert(remain@[j] == before[j]);
                        }
                    }
                    assert forall|j: int| 0 <= j < remain@.len() implies exists|q: int| 0 <= q < i + 1 && #[trigger] remain@[j].0@ == out@[q].0@ by {
                        if j < before.len() {
                            assert(remain@[j] == before[j]);
                            let q = choose|q: int| 0 <= q < i && #[trigger] before[j].0@ == out@[q].0@;
                        } else {
                            assert(remain@[j].0@ == out@[i as int].0@);
                        }
                    }
                    assert forall|j: int| 0 <= j < remain@.len() implies #[trigger] fcache.amount_of(remain@[j].0@) == remain@[j].1 by {
                        if j < before.len() {
                            assert(remain@[j] == before[j]);
                        }
                    }
                    assert forall|j: int| 0 <= j < i + 1 && fcache.amount_of(out@[j].0@) > 0 implies pair_tokens(remain@).contains(#[trigger] out@[j].0@) by {
                        if j < i {
                            assert(pair_tokens(before).contains(out@[j].0@));
                            let w = choose|w: int| 0 <= w < pair_tokens(before).len() && pair_tokens(before)[w] == out@[j].0@;
                            assert(pair_tokens(remain@)[w] == out@[j].0@);
                        } else {
                            assert(pair_tokens(remain@)[before.len() as int] == t);
                        }
                    }
                    assert forall|j: int| 0 <= j < remain@.len() implies #[trigger] account_balance(sender, remain@[j].0@)
                        == Some((balance_or_zero(old(sender), remain@[j].0@) + remain@[j].1) as u128) by {
                        if j < before.len() {
                            assert(remain@[j] == before[j]);
                            assert(pair_tokens(before)[j] != t);
                            assert(account_balance(sender, before[j].0@) == account_balance(&before_acc, before[j].0@));
                        } else {
                            assert(remain@[j].0@ == t);
                        }
                    }
                    assert forall|u: Seq<char>| !pair_tokens(remain@).contains(u) implies #[trigger] account_balance(sender, u) == account_balance(old(sender), u) by {
                        vstd::seq_lib::lemma_seq_contains_after_push(pair_tokens(before), t, u);
                        assert(u != t);
                        assert(account_balance(sender, u) == account_balance(&before_acc, u));
                    }
                }
            }
            i = i + 1;
        }
        proof {
            assert forall|t: Seq<char>| #![trigger pair_tokens(remain@).contains(t)]
                pair_tokens(out@).contains(t) && fcache.amount_of(t) > 0 implies pair_tokens(remain@).contains(t) by {
                let j = choose|j: int| 0 <= j < pair_tokens(out@).len() && pair_tokens(out@)[j] == t;
                assert(out@[j].0@ == t);
            }
            assert(zaps_trace(&mid, self, cache0, fcache, add_liquidity_infos@, sender_id@, fees, now, cs, caches));
            assert(zap_run(old(self), self, old(sender), sender, sender_id@, token_in@, amount, hot_zap_actions@, add_liquidity_infos@,
                *referral_id, *exchange_id, now, remain@, mid, out@, cache0, fcache, cs, caches));
        }
        Ok(remain)
    }

    /// Tokens sent to the exchange with a message, which the caller has read: none, a chain
    /// of swaps, or a hot zap. Only a deposit or a hot zap touches the sender's account, and
    /// only they need the exchange to hold it, as `registered` says.
    pub fn ft_on_transfer(
        &mut self,
        sender_id: &String,
        sender: &mut Account,
        registered: bool,
        token_in: &String,
        amount: u128,
        msg: Option<TokenReceiverMessage>,
        exchange_id: &String,
        now: u64,
    ) -> (r: Result<TransferOutcome, ExchangeError>)
        requires
            contract_wf(old(self)),
        ensures
            contract_wf(final(self)),
            final(self).pools@.len() == old(self).pools@.len(),
            old(self).state != RunningState::Running ==> r is Err && r->Err_0 == ExchangeError::ContractPaused,
            msg is None && r is Ok ==> r->Ok_0 is Deposited
                && account_balance(final(sender), token_in@) == Some((balance_or_zero(old(sender), token_in@) + amount) as u128)
                && forall|t: Seq<char>| t != token_in@ ==> #[trigger] account_balance(final(sender), t) == account_balance(old(sender), t),
            msg is None ==> *final(self) == *old(self),
            msg is None && old(self).state == RunningState::Running && is_frozen(old(self), token_in@)
                ==> r is Err && r->Err_0 == ExchangeError::FrozenToken,
            msg is None && old(self).state == RunningState::Running && !is_frozen(old(self), token_in@) && !registered
                ==> r is Err && r->Err_0 == ExchangeError::AccountNotRegistered,
            msg is None && old(self).state == RunningState::Running && !is_frozen(old(self), token_in@) && registered
                && !is_whitelisted(old(self), token_in@)
                && account_balance(old(sender), token_in@) is None ==> r is Err && r->Err_0 == ExchangeError::TokenNotWhitelisted,
            msg is None && old(self).state == RunningState::Running && !is_frozen(old(self), token_in@) && registered
                && (is_whitelisted(old(self), token_in@)
                    || account_balance(old(sender), token_in@) is Some)
                && balance_or_zero(old(sender), token_in@) + amount <= u128::MAX ==> r is Ok,
            msg is None && r is Err ==> final(sender).tokens@ == old(sender).tokens@ && final(sender).legacy_tokens@ == old(sender).legacy_tokens@
                && final(sender).near_amount == old(sender).near_amount,
            msg is Some && msg->0 is Execute && old(self).state == RunningState::Running && msg->0->Execute_actions@.len() == 0
                ==> r is Err && r->Err_0 == ExchangeError::AtLeastOneSwap && final(self).pools@ == old(self).pools@,
            msg is Some && msg->0 is Execute && r is Err && old(self).state == RunningState::Running && msg->0->Execute_actions@.len() > 0
                && all_same_action_type(msg->0->Execute_actions@)
                && !(exists|t: Seq<char>| involved(msg->0->Execute_actions@, t) && is_frozen(old(self), t)) && msg->0->Execute_actions@[0] is Swap
                && !(msg->0->Execute_client_echo is Some && sender_id@ == old(self).burrowland_id@)
                ==> direct_stops(old(self), token_in@, amount, msg->0->Execute_actions@, msg->0->Execute_referral_id, *exchange_id, now),
            msg is Some && msg->0 is HotZap && old(self).state == RunningState::Running
                && (msg->0->HotZap_hot_zap_actions@.len() == 0 || msg->0->HotZap_add_liquidity_infos@.len() == 0)
                ==> r is Err && r->Err_0 == ExchangeError::EmptyHotZap && final(self).pools@ == old(self).pools@ && *final(sender) == *old(sender),
            msg is Some && msg->0 is Execute ==> *final(sender) == *old(sender),
            msg is Some && msg->0 is Execute && r is Ok ==> {
                &&& r->Ok_0 is Send
                &&& r->Ok_0->Send_client_echo == msg->0->Execute_client_echo
                &&& r->Ok_0->Send_skip_unwrap_near == msg->0->Execute_skip_unwrap_near
                &&& distinct_positive(r->Ok_0->Send_amounts@)
                &&& swapped_directly(old(self), final(self), token_in@, amount, msg->0->Execute_actions@, msg->0->Execute_referral_id, *exchange_id, now, r->Ok_0->Send_amounts@)
            },
            msg is Some && msg->0 is HotZap && r is Ok ==> r->Ok_0 is HotZapped && distinct_positive(r->Ok_0->HotZapped_remain@)
                && hot_zapped(old(self), final(self), old(sender), final(sender), sender_id@, token_in@, amount, msg->0->HotZap_hot_zap_actions@,
                    msg->0->HotZap_add_liquidity_infos@, msg->0->HotZap_referral_id, *exchange_id, now, r->Ok_0->HotZapped_remain@),
            msg is Some && msg->0 is HotZap && old(self).state == RunningState::Running
                && msg->0->HotZap_hot_zap_actions@.len() > 0 && msg->0->HotZap_add_liquidity_infos@.len() > 0 && !registered
                ==> r is Err && r->Err_0 == ExchangeError::AccountNotRegistered && final(self).pools@ == old(self).pools@ && *final(sender) == *old(sender),
            msg is Some && msg->0 is HotZap && r is Err && old(self).state == RunningState::Running
                && msg->0->HotZap_hot_zap_actions@.len() > 0 && msg->0->HotZap_add_liquidity_infos@.len() > 0 && registered
                ==> hot_zap_fails(old(self), old(sender), sender_id@, token_in@, amount, msg->0->HotZap_hot_zap_actions@,
                    msg->0->HotZap_add_liquidity_infos@, msg->0->HotZap_referral_id, *exchange_id, now),
    {
        match msg {
            None => {
                self.ft_on_transfer_deposit(sender, registered, token_in, amount)?;
                Ok(TransferOutcome::Deposited)
            },
            Some(TokenReceiverMessage::Execute { referral_id, actions, client_echo, skip_unwrap_near }) => {
                let amounts = self.ft_on_transfer_execute(sender_id, token_in, amount, &referral_id, &actions, &client_echo, exchange_id, now)?;
                Ok(TransferOutcome::Send { client_echo, skip_unwrap_near, amounts })
            },
            Some(TokenReceiverMessage::HotZap { referral_id, hot_zap_actions, add_liquidity_infos }) => {
                let remain = self.ft_on_transfer_hot_zap(sender_id, sender, registered, token_in, amount, &referral_id, &hot_zap_actions, &add_liquidity_infos, exchange_id, now)?;
                Ok(TransferOutcome::HotZapped { remain })
            },
        }
    }
}

} // verus!
