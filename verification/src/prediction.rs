//! Running actions against a working copy of the exchange and a cache of token amounts,
//! to see what they would give. No account and no swap volume is touched.
use crate::action::{action_token_in, action_token_out, all_same_action_type, assert_all_same_action_type, get_tokens_in_actions, involved, Action, ActionResult};
use crate::admin_fee::AdminFees;
use crate::contract::{contract_wf, is_frozen, swap_amount_in, swap_fees, Contract};
use crate::errors::ExchangeError;
use crate::pool::{pool_swap_ok, pool_swap_out, pool_swap_post, pool_wf};
use crate::token_receiver::pair_tokens;
use crate::utils::{extend_set, no_duplicates, views_of, TokenCache};
use vstd::prelude::*;

verus! {

/// The cache after `amount` of `token_in` left it and `out` of `token_out` came in.
pub open spec fn cache_swapped(c: TokenCache, fc: TokenCache, token_in: Seq<char>, amount: nat, token_out: Seq<char>, out: nat) -> bool {
    &&& c.amount_of(token_in) >= amount
    &&& token_in != token_out ==> fc.amount_of(token_in) == c.amount_of(token_in) - amount
    &&& token_in != token_out ==> fc.amount_of(token_out) == c.amount_of(token_out) + out
    &&& token_in == token_out ==> fc.amount_of(token_in) == c.amount_of(token_in) - amount + out
    &&& forall|t: Seq<char>| t != token_in && t != token_out ==> #[trigger] fc.amount_of(t) == c.amount_of(t)
}

/// One swap action run on the cache: it takes the action's own amount, or the previous
/// result, of the token in from the cache and adds what the pool paid out; only that pool
/// changed.
pub open spec fn cache_step(
    c: &Contract,
    fc: &Contract,
    cache: TokenCache,
    fcache: TokenCache,
    action: Action,
    prev: ActionResult,
    fees: AdminFees,
    now: u64,
    res: ActionResult,
) -> bool {
    match action {
        Action::Swap(s) => {
            let amount_in = swap_amount_in(s.amount_in, prev);
            &&& amount_in is Some
            &&& res is Amount
            &&& cache_swapped(cache, fcache, s.token_in@, amount_in->0 as nat, s.token_out@, res->Amount_0 as nat)
            &&& s.pool_id < c.pools@.len()
            &&& fc.pools@.len() == c.pools@.len()
            &&& forall|j: int| 0 <= j < c.pools@.len() && j != s.pool_id ==> #[trigger] fc.pools@[j] == c.pools@[j]
            &&& pool_swap_post(&c.pools@[s.pool_id as int], &fc.pools@[s.pool_id as int], s.token_in@, amount_in->0 as nat, s.token_out@, s.min_amount_out as nat, fees, now, res->Amount_0 as nat)
        },
        Action::SwapByOutput(_) => false,
    }
}

/// A run of `actions` on the cache from `c`, `cache` and `prev` to `fc`, `fcache` and `res`,
/// through the states `cs`, the caches `caches` and the results `results`.
pub open spec fn cache_trace(
    c: &Contract,
    fc: &Contract,
    cache: TokenCache,
    fcache: TokenCache,
    actions: Seq<Action>,
    prev: ActionResult,
    fees: AdminFees,
    now: u64,
    res: ActionResult,
    cs: Seq<Contract>,
    caches: Seq<TokenCache>,
    results: Seq<ActionResult>,
) -> bool {
    let n = actions.len();
    &&& cs.len() == n + 1
    &&& caches.len() == n + 1
    &&& results.len() == n + 1
    &&& cs[0] == *c
    &&& caches[0] == cache
    &&& results[0] == prev
    &&& cs[n as int] == *fc
    &&& caches[n as int] == fcache
    &&& results[n as int] == res
    &&& forall|k: int| 0 <= k < n ==> #[trigger] cache_step(&cs[k], &cs[k + 1], caches[k], caches[k + 1], actions[k], results[k], fees, now, results[k + 1])
}

/// Whether `actions` run on the cache, one swap after the other, from `c`, `cache` and
/// `prev` to `fc`, `fcache` and `res`.
pub open spec fn ran_on_cache(
    c: &Contract,
    fc: &Contract,
    cache: TokenCache,
    fcache: TokenCache,
    actions: Seq<Action>,
    prev: ActionResult,
    fees: AdminFees,
    now: u64,
    res: ActionResult,
) -> bool {
    exists|cs: Seq<Contract>, caches: Seq<TokenCache>, results: Seq<ActionResult>|
        #[trigger] cache_trace(c, fc, cache, fcache, actions, prev, fees, now, res, cs, caches, results)
}

/// The cache filled with the pairs in order, a later pair for a token replacing an earlier.
pub open spec fn cache_of(pairs: Seq<(String, u128)>) -> Map<Seq<char>, u128>
    decreases pairs.len(),
{
    if pairs.len() == 0 {
        Map::empty()
    } else {
        cache_of(pairs.drop_last()).insert(pairs.last().0@, pairs.last().1)
    }
}

/// A prediction of `actions` run from `c` on a cache filled with `deposit`: the cache ends at
/// `fcache`, and `out` holds the amount it keeps of each token of the deposit or of the
/// actions that it has an entry for.
pub open spec fn predicted_run(
    c: &Contract,
    deposit: Seq<(String, u128)>,
    actions: Seq<Action>,
    exchange_id: String,
    now: u64,
    out: Seq<(String, u128)>,
    fc: Contract,
    cache: TokenCache,
    fcache: TokenCache,
    res: ActionResult,
) -> bool {
    &&& cache.0@ == cache_of(deposit)
    &&& ran_on_cache(c, &fc, cache, fcache, actions, ActionResult::Nothing, swap_fees(c, exchange_id, None), now, res)
    &&& forall|i: int| 0 <= i < out.len() ==> fcache.0@.contains_key(#[trigger] out[i].0@) && fcache.0@[out[i].0@] == out[i].1
    &&& forall|t: Seq<char>| #![trigger pair_tokens(out).contains(t)]
        (pair_tokens(deposit).contains(t) || involved(actions, t)) && fcache.0@.contains_key(t) ==> pair_tokens(out).contains(t)
}

/// Whether `out` is what `actions` would leave of `deposit`, run from `c`.
pub open spec fn predicted(
    c: &Contract,
    deposit: Seq<(String, u128)>,
    actions: Seq<Action>,
    exchange_id: String,
    now: u64,
    out: Seq<(String, u128)>,
) -> bool {
    exists|fc: Contract, cache: TokenCache, fcache: TokenCache, res: ActionResult|
        #[trigger] predicted_run(c, deposit, actions, exchange_id, now, out, fc, cache, fcache, res)
}

/// For each of `tokens` the cache has an entry for, in order, the token and its amount.
pub fn cache_entries(cache: &TokenCache, tokens: &Vec<String>) -> (r: Vec<(String, u128)>)
    ensures
        pair_tokens(r@) == views_of(tokens@).filter(|t: Seq<char>| cache.0@.contains_key(t)),
        forall|i: int| 0 <= i < r@.len() ==> cache.0@.contains_key(#[trigger] r@[i].0@) && cache.0@[r@[i].0@] == r@[i].1,
        forall|i: int| 0 <= i < r@.len() ==> views_of(tokens@).contains(#[trigger] r@[i].0@),
        no_duplicates(views_of(tokens@)) ==> no_duplicates(pair_tokens(r@)),
{
    let ghost p = |t: Seq<char>| cache.0@.contains_key(t);
    let mut kept: Vec<(String, u128)> = Vec::new();
    let mut i: usize = 0;
    while i < tokens.len()
        invariant
            i <= tokens.len(),
            p == (|t: Seq<char>| cache.0@.contains_key(t)),
            pair_tokens(kept@) == views_of(tokens@.subrange(0, i as int)).filter(p),
            forall|j: int| 0 <= j < kept@.len() ==> cache.0@.contains_key(#[trigger] kept@[j].0@) && cache.0@[kept@[j].0@] == kept@[j].1,
            forall|j: int| 0 <= j < kept@.len() ==> exists|k: int| 0 <= k < i && #[trigger] kept@[j].0@ == tokens@[k]@,
            no_duplicates(views_of(tokens@)) ==> no_duplicates(pair_tokens(kept@)),
        decreases tokens.len() - i,
    {
        let ghost pre = views_of(tokens@.subrange(0, i as int));
        let ghost x = tokens@[i as int]@;
        proof {
            assert(views_of(tokens@.subrange(0, i + 1)) =~= pre.push(x));
            pre.lemma_filter_push(x, p);
        }
        match cache.0.get(tokens[i].as_str()) {
            Some(v) => {
                let ghost before = kept@;
                kept.push((tokens[i].clone(), *v));
                proof {
                    assert(pair_tokens(kept@) =~= pair_tokens(before).push(x));
                    assert(kept@[before.len() as int].0@ == tokens@[i as int]@);
                    if no_duplicates(views_of(tokens@)) {
                        assert forall|a: int, b: int| 0 <= a < b < pair_tokens(kept@).len() implies pair_tokens(kept@)[a] != pair_tokens(kept@)[b] by {
                            if b == before.len() {
                                let k = choose|k: int| 0 <= k < i && #[trigger] before[a].0@ == tokens@[k]@;
                                assert(views_of(tokens@)[k] == tokens@[k]@);
                                assert(views_of(tokens@)[i as int] == x);
                            }
                        }
                    }
                    assert forall|j: int| 0 <= j < kept@.len() implies exists|k: int| 0 <= k < i + 1 && #[trigger] kept@[j].0@ == tokens@[k]@ by {
                        if j < before.len() {
                            let k = choose|k: int| 0 <= k < i && #[trigger] before[j].0@ == tokens@[k]@;
                            assert(kept@[j] == before[j]);
                        } else {
                            assert(kept@[j].0@ == tokens@[i as int]@);
                        }
                    }
                }
            },
            None => {},
        }
        i = i + 1;
    }
    proof {
        assert(tokens@.subrange(0, tokens@.len() as int) == tokens@);
        assert forall|j: int| 0 <= j < kept@.len() implies views_of(tokens@).contains(#[trigger] kept@[j].0@) by {
            let k = choose|k: int| 0 <= k < tokens@.len() && #[trigger] kept@[j].0@ == tokens@[k]@;
            assert(views_of(tokens@)[k] == tokens@[k]@);
        }
    }
    kept
}

impl Contract {
    /// Swaps in the working copy's pool, without recording volumes.
    #[verifier::rlimit(80)]
    #[verifier::spinoff_prover]
    pub fn internal_pool_swap_by_cache(
        &mut self,
        pool_id: u64,
        token_in: &String,
        amount_in: u128,
        token_out: &String,
        min_amount_out: u128,
        referral_info: &Option<(String, u32)>,
        exchange_id: &String,
        now: u64,
    ) -> (r: Result<u128, ExchangeError>)
        requires
            contract_wf(old(self)),
        ensures
            contract_wf(final(self)),
            final(self).pools@.len() == old(self).pools@.len(),
            pool_id >= old(self).pools@.len() ==> r == Err::<u128, ExchangeError>(ExchangeError::NoPool),
            r matches Ok(out) ==> {
                &&& pool_id < old(self).pools@.len()
                &&& forall|j: int| 0 <= j < old(self).pools@.len() && j != pool_id ==> #[trigger] final(self).pools@[j] == old(self).pools@[j]
                &&& pool_swap_post(&old(self).pools@[pool_id as int], &final(self).pools@[pool_id as int], token_in@, amount_in as nat, token_out@, min_amount_out as nat, swap_fees(old(self), *exchange_id, *referral_info), now, out as nat)
                &&& out == pool_swap_out(&old(self).pools@[pool_id as int], token_in@, amount_in as nat, token_out@, min_amount_out as nat, swap_fees(old(self), *exchange_id, *referral_info), now)
            },
            pool_id < old(self).pools@.len() ==> (r is Ok <==> pool_swap_ok(&old(self).pools@[pool_id as int], token_in@, amount_in as nat, token_out@, min_amount_out as nat, swap_fees(old(self), *exchange_id, *referral_info), now)),
            final(self).admin_fee_bps == old(self).admin_fee_bps,
            final(self).frozen_tokens@ == old(self).frozen_tokens@,
    {
        if pool_id >= self.pools.len() as u64 {
            return Err(ExchangeError::NoPool);
        }
        let idx = pool_id as usize;
        let referral_copy: Option<(String, u32)> = match referral_info {
            Some((rid, f)) => Some((rid.clone(), *f)),
            None => None,
        };
        let fees = AdminFees { admin_fee_bps: self.admin_fee_bps, exchange_id: exchange_id.clone(), referral_info: referral_copy };
        assert(fees == swap_fees(old(self), *exchange_id, *referral_info));
        let mut pool = self.pools.remove(idx);
        assert(pool == old(self).pools@[idx as int]);
        assert(pool_wf(&pool));
        let result = pool.swap(token_in, amount_in, token_out, min_amount_out, &fees, now);
        let ghost p1 = pool;
        self.pools.insert(idx, pool);
        proof {
            assert(self.pools@ =~= old(self).pools@.update(idx as int, p1));
            assert forall|j: int| 0 <= j < self.pools@.len() implies #[trigger] pool_wf(&self.pools@[j]) by {
                if j != idx {
                    assert(self.pools@[j] == old(self).pools@[j]);
                }
            }
        }
        result
    }

    /// Runs one swap on the cache: takes the amount in (its own, or the previous step's
    /// result) from the cache, swaps it in the working copy's pool and adds the amount out.
    /// Swaps by output are not offered by these pools.
    pub fn internal_execute_action_by_cache(
        &mut self,
        token_cache: &mut TokenCache,
        referral_info: &Option<(String, u32)>,
        action: &Action,
        prev_result: ActionResult,
        exchange_id: &String,
        now: u64,
    ) -> (r: Result<ActionResult, ExchangeError>)
        requires
            contract_wf(old(self)),
        ensures
            contract_wf(final(self)),
            final(self).pools@.len() == old(self).pools@.len(),
            *action is SwapByOutput ==> r == Err::<ActionResult, ExchangeError>(ExchangeError::Unsupported),
            match *action {
                Action::Swap(a) => {
                    &&& swap_amount_in(a.amount_in, prev_result) is None ==> r == Err::<ActionResult, ExchangeError>(ExchangeError::WrongActionResult)
                    &&& r matches Ok(res) ==> {
                        let amount_in = swap_amount_in(a.amount_in, prev_result)->0;
                        &&& res is Amount
                        &&& cache_swapped(*old(token_cache), *final(token_cache), a.token_in@, amount_in as nat, a.token_out@, res->Amount_0 as nat)
                        &&& a.pool_id < old(self).pools@.len()
                        &&& forall|j: int| 0 <= j < old(self).pools@.len() && j != a.pool_id ==> #[trigger] final(self).pools@[j] == old(self).pools@[j]
                        &&& pool_swap_post(&old(self).pools@[a.pool_id as int], &final(self).pools@[a.pool_id as int], a.token_in@, amount_in as nat, a.token_out@, a.min_amount_out as nat, swap_fees(old(self), *exchange_id, *referral_info), now, res->Amount_0 as nat)
                    }
                },
                Action::SwapByOutput(_) => true,
            },
            r matches Ok(res) ==> cache_step(old(self), final(self), *old(token_cache), *final(token_cache), *action, prev_result, swap_fees(old(self), *exchange_id, *referral_info), now, res),
            final(self).admin_fee_bps == old(self).admin_fee_bps,
            final(self).frozen_tokens@ == old(self).frozen_tokens@,
    {
        match action {
            Action::Swap(swap_action) => {
                let amount_in = match swap_action.amount_in {
                    Some(v) => v,
                    None => prev_result.to_amount()?,
                };
                let ghost c0 = *token_cache;
                token_cache.sub(&swap_action.token_in, amount_in)?;
                let ghost c1 = *token_cache;
                let amount_out = self.internal_pool_swap_by_cache(
                    swap_action.pool_id,
                    &swap_action.token_in,
                    amount_in,
                    &swap_action.token_out,
                    swap_action.min_amount_out,
                    referral_info,
                    exchange_id,
                    now,
                )?;
                if token_cache.get(&swap_action.token_out) > u128::MAX - amount_out {
                    return Err(ExchangeError::ArithmeticOverflow);
                }
                token_cache.add(&swap_action.token_out, amount_out);
                proof {
                    let t_in = swap_action.token_in@;
                    let t_out = swap_action.token_out@;
                    assert(c1.amount_of(t_in) == c0.amount_of(t_in) - amount_in);
                    assert forall|t: Seq<char>| t != t_in && t != t_out implies #[trigger] token_cache.amount_of(t) == c0.amount_of(t) by {
                        assert(c1.amount_of(t) == c0.amount_of(t));
                    }
                    if t_in != t_out {
                        assert(c1.amount_of(t_out) == c0.amount_of(t_out));
                    }
                }
                Ok(ActionResult::Amount(amount_out))
            },
            Action::SwapByOutput(_) => Err(ExchangeError::Unsupported),
        }
    }

    /// Runs a sequence of actions of one kind on the cache, each plain swap taking the
    /// previous one's result where it names no amount of its own.
    pub fn internal_execute_actions_by_cache(
        &mut self,
        token_cache: &mut TokenCache,
        referral_info: &Option<(String, u32)>,
        actions: &Vec<Action>,
        prev_result: ActionResult,
        exchange_id: &String,
        now: u64,
    ) -> (r: Result<ActionResult, ExchangeError>)
        requires
            contract_wf(old(self)),
        ensures
            contract_wf(final(self)),
            final(self).pools@.len() == old(self).pools@.len(),
            !all_same_action_type(actions@) ==> r == Err::<ActionResult, ExchangeError>(ExchangeError::InvalidActionType),
            all_same_action_type(actions@) && (exists|t: Seq<char>| involved(actions@, t) && is_frozen(old(self), t)) ==> r == Err::<ActionResult, ExchangeError>(ExchangeError::FrozenToken),
            r is Ok ==> actions@.len() > 0 && actions@[0] is Swap && r->Ok_0 is Amount,
            r is Ok ==> forall|t: Seq<char>| !involved(actions@, t) ==> #[trigger] final(token_cache).amount_of(t) == old(token_cache).amount_of(t),
            r matches Ok(res) ==> ran_on_cache(old(self), final(self), *old(token_cache), *final(token_cache), actions@, prev_result, swap_fees(old(self), *exchange_id, *referral_info), now, res),
            final(self).admin_fee_bps == old(self).admin_fee_bps,
    {
        assert_all_same_action_type(actions)?;
        let tokens = get_tokens_in_actions(actions);
        match self.assert_no_frozen_tokens(&tokens) {
            Ok(()) => {},
            Err(e) => {
                return Err(e);
            },
        }
        proof {
            assert forall|t: Seq<char>| involved(actions@, t) implies !is_frozen(old(self), t) by {
                assert(views_of(tokens@).contains(t));
                let k = choose|k: int| 0 <= k < views_of(tokens@).len() && views_of(tokens@)[k] == t;
                assert(tokens@[k]@ == t);
            }
        }
        if actions.len() == 0 {
            return Err(ExchangeError::AtLeastOneSwap);
        }
        match &actions[0] {
            Action::Swap(_) => {},
            Action::SwapByOutput(_) => {
                return Err(ExchangeError::Unsupported);
            },
        }
        let mut result = prev_result;
        let ghost fees = swap_fees(old(self), *exchange_id, *referral_info);
        let ghost mut cs: Seq<Contract> = seq![*self];
        let ghost mut caches: Seq<TokenCache> = seq![*token_cache];
        let ghost mut results: Seq<ActionResult> = seq![prev_result];
        let mut i: usize = 0;
        while i < actions.len()
            invariant
                contract_wf(self),
                self.admin_fee_bps == old(self).admin_fee_bps,
                fees == swap_fees(old(self), *exchange_id, *referral_info),
                cs.len() == i + 1,
                caches.len() == i + 1,
                results.len() == i + 1,
                cs[0] == *old(self),
                caches[0] == *old(token_cache),
                results[0] == prev_result,
                cs[i as int] == *self,
                caches[i as int] == *token_cache,
                results[i as int] == result,
                forall|k: int| 0 <= k < i ==> #[trigger] cache_step(&cs[k], &cs[k + 1], caches[k], caches[k + 1], actions@[k], results[k], fees, now, results[k + 1]),
                0 < actions.len(),
                actions@[0] is Swap,
                all_same_action_type(actions@),
                forall|t: Seq<char>| involved(actions@, t) ==> !is_frozen(old(self), t),
                i <= actions.len(),
                i > 0 ==> result is Amount,
                forall|t: Seq<char>| !involved(actions@, t) ==> #[trigger] token_cache.amount_of(t) == old(token_cache).amount_of(t),
                self.pools@.len() == old(self).pools@.len(),
            decreases actions.len() - i,
        {
            let ghost before = *token_cache;
            let ghost c_before = *self;
            let ghost r_before = result;
            result = self.internal_execute_action_by_cache(token_cache, referral_info, &actions[i], result, exchange_id, now)?;
            proof {
                assert(swap_fees(&c_before, *exchange_id, *referral_info) == fees);
                let cs1 = cs.push(*self);
                let caches1 = caches.push(*token_cache);
                let results1 = results.push(result);
                assert forall|k: int| 0 <= k < i + 1 implies #[trigger] cache_step(&cs1[k], &cs1[k + 1], caches1[k], caches1[k + 1], actions@[k], results1[k], fees, now, results1[k + 1]) by {
                    if k < i {
                        assert(cs1[k] == cs[k] && cs1[k + 1] == cs[k + 1]);
                        assert(caches1[k] == caches[k] && caches1[k + 1] == caches[k + 1]);
                        assert(results1[k] == results[k] && results1[k + 1] == results[k + 1]);
                    } else {
                        assert(cs1[k] == c_before && cs1[k + 1] == *self);
                        assert(caches1[k] == before && caches1[k + 1] == *token_cache);
                        assert(results1[k] == r_before && results1[k + 1] == result);
                    }
                }
                cs = cs1;
                caches = caches1;
                results = results1;
                let a = actions@[i as int];
                assert forall|t: Seq<char>| !involved(actions@, t) implies #[trigger] token_cache.amount_of(t) == old(token_cache).amount_of(t) by {
                    assert(action_token_in(a) != t && action_token_out(a) != t);
                    assert(token_cache.amount_of(t) == before.amount_of(t));
                }
            }
            i = i + 1;
        }
        proof {
            assert(cache_trace(old(self), self, *old(token_cache), *token_cache, actions@, prev_result, fees, now, result, cs, caches, results));
        }
        Ok(result)
    }

    /// What the actions would leave of `token_deposit`: run on this state, which is used up,
    /// they return every token of the deposit or of the actions that the cache then holds,
    /// with its amount.
    pub fn predict_swap_actions(
        self,
        token_deposit: &Vec<(String, u128)>,
        actions: &Vec<Action>,
        exchange_id: &String,
        now: u64,
    ) -> (r: Result<Vec<(String, u128)>, ExchangeError>)
        requires
            contract_wf(&self),
        ensures
            r matches Ok(out) ==> no_duplicates(pair_tokens(out@))
                && forall|i: int| 0 <= i < out@.len() ==> (pair_tokens(token_deposit@).contains(#[trigger] out@[i].0@) || involved(actions@, out@[i].0@)),
            !all_same_action_type(actions@) ==> r == Err::<Vec<(String, u128)>, ExchangeError>(ExchangeError::InvalidActionType),
            r matches Ok(out) ==> predicted(&self, token_deposit@, actions@, *exchange_id, now, out@),
    {
        let ghost c0 = self;
        let mut state = self;
        let mut cache = TokenCache::new();
        let mut deposit_tokens: Vec<String> = Vec::new();
        let mut i: usize = 0;
        while i < token_deposit.len()
            invariant
                i <= token_deposit.len(),
                views_of(deposit_tokens@) == pair_tokens(token_deposit@.subrange(0, i as int)),
                cache.0@ == cache_of(token_deposit@.subrange(0, i as int)),
                state == c0,
                contract_wf(&state),
            decreases token_deposit.len() - i,
        {
            cache.0.insert(token_deposit[i].0.clone(), token_deposit[i].1);
            deposit_tokens.push(token_deposit[i].0.clone());
            proof {
                assert(token_deposit@.subrange(0, i + 1).drop_last() =~= token_deposit@.subrange(0, i as int));
                assert(token_deposit@.subrange(0, i + 1).last() == token_deposit@[i as int]);
                assert(pair_tokens(token_deposit@.subrange(0, i + 1)) =~= pair_tokens(token_deposit@.subrange(0, i as int)).push(token_deposit@[i as int].0@));
                assert(views_of(deposit_tokens@) =~= pair_tokens(token_deposit@.subrange(0, i + 1)));
            }
            i = i + 1;
        }
        proof {
            assert(token_deposit@.subrange(0, token_deposit@.len() as int) == token_deposit@);
        }
        let ghost cache0 = cache;
        let res = state.internal_execute_actions_by_cache(&mut cache, &None, actions, ActionResult::Nothing, exchange_id, now)?;
        let involved_tokens = get_tokens_in_actions(actions);
        let mut candidates: Vec<String> = Vec::new();
        proof {
            assert(views_of(candidates@) =~= Seq::<Seq<char>>::empty());
            assert(no_duplicates(views_of(candidates@)));
        }
        extend_set(&mut candidates, &deposit_tokens);
        extend_set(&mut candidates, &involved_tokens);
        let out = cache_entries(&cache, &candidates);
        proof {
            assert forall|j: int| 0 <= j < out@.len() implies (pair_tokens(token_deposit@).contains(#[trigger] out@[j].0@) || involved(actions@, out@[j].0@)) by {
                assert(views_of(candidates@).contains(out@[j].0@));
            }
            assert forall|t: Seq<char>| #![trigger pair_tokens(out@).contains(t)]
                (pair_tokens(token_deposit@).contains(t) || involved(actions@, t)) && cache.0@.contains_key(t) implies pair_tokens(out@).contains(t) by {
                assert(views_of(candidates@).contains(t));
                let k = choose|k: int| 0 <= k < views_of(candidates@).len() && views_of(candidates@)[k] == t;
                views_of(candidates@).lemma_filter_contains(|u: Seq<char>| cache.0@.contains_key(u), k);
            }
            assert(predicted_run(&c0, token_deposit@, actions@, *exchange_id, now, out@, state, cache0, cache, res));
        }
        Ok(out)
    }
}

} // verus!
