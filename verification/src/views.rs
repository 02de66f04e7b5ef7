//! What the exchange shows of its state: pools, shares, deposits, lists; and what a swap or
//! a deposit of liquidity would give, computed on a state that is then dropped.
use crate::account_deposit::{account_balance, storage_cost, Account};
use crate::action::{Action, ActionResult, SwapAction};
use crate::contract::{
    actions_stop, actions_trace, contract_wf, ran_actions, ran_with_referral, referral_known, run_stops, stops_with_referral, swap_action_ok,
    swap_actions, swap_step, swap_fees, volume_ok, Contract,
};
use crate::simple_pool::simple_swap_ok;
use crate::errors::ExchangeError;
use crate::event::RunningState;
use crate::pool::{pool_ledger, pool_supply, pool_swap_ok, pool_swap_out, pool_swap_post, pool_wf, Pool};
use crate::pool_shares::balance_in;
use crate::simple_pool::after_deposit;
use crate::stable_swap::{pool_amp, spec_amounts};
use crate::utils::SwapVolume;
use vstd::prelude::*;
use vstd::string::*;

verus! {

/// An account's NEAR for storage, and what its storage costs.
#[derive(Clone, Copy, Debug)]
pub struct RefStorageState {
    pub deposit: u128,
    pub usage: u128,
}

/// The amounts a deposit of liquidity would take, and the shares it would mint.
#[derive(Clone, Debug)]
pub struct AddLiquidityPrediction {
    pub need_amounts: Vec<u128>,
    pub mint_shares: u128,
}

/// What a deposit into the simple pool `p` by the view account takes and mints.
pub open spec fn predicted_deposit(p: Pool, pred: AddLiquidityPrediction) -> bool {
    exists|fp: crate::simple_pool::SimplePool| after_deposit(&p->SimplePool_0, &fp, "@view"@, pred.need_amounts@, pred.mint_shares as nat)
}

/// What the exchange shows of a pool.
#[derive(Clone, Debug)]
pub struct PoolInfo {
    /// Pool kind.
    pub pool_kind: String,
    /// List of tokens in the pool.
    pub token_account_ids: Vec<String>,
    /// How much of each token the pool holds.
    pub amounts: Vec<u128>,
    /// Fee charged for swap.
    pub total_fee: u32,
    /// Total number of shares.
    pub shares_total_supply: u128,
    pub amp: u64,
}

/// `info` shows the pool `p` at `now`: a stable pool's amounts in the tokens' own decimals,
/// and its amp factor then.
pub open spec fn shows_pool(p: Pool, info: PoolInfo, now: u64) -> bool {
    match p {
        Pool::SimplePool(s) => {
            &&& info.pool_kind@ == "SIMPLE_POOL"@
            &&& info.token_account_ids@ == s.token_account_ids@
            &&& info.amounts@ == s.amounts@
            &&& info.total_fee == s.total_fee
            &&& info.shares_total_supply == s.shares_total_supply
            &&& info.amp == 0
        },
        Pool::StableSwapPool(s) => {
            &&& info.pool_kind@ == "STABLE_SWAP"@
            &&& info.token_account_ids@ == s.token_account_ids@
            &&& spec_amounts(s.c_amounts@, s.token_decimals@) == Some(info.amounts@)
            &&& info.total_fee == s.total_fee
            &&& info.shares_total_supply == s.shares_total_supply
            &&& info.amp == match pool_amp(&s, now) { Some(a) => a, None => 0 }
        },
    }
}

/// Whether the exchange can show the pool: always for a simple pool; for a stable pool where
/// its amounts fit 128 bits in the tokens' own decimals.
pub open spec fn showable(p: Pool) -> bool {
    match p {
        Pool::SimplePool(_) => true,
        Pool::StableSwapPool(s) => spec_amounts(s.c_amounts@, s.token_decimals@) is Some,
    }
}

/// A copy of a list of strings.
fn copy_strings(v: &Vec<String>) -> (r: Vec<String>)
    ensures
        r@ == v@,
{
    let mut out: Vec<String> = Vec::new();
    let mut i: usize = 0;
    while i < v.len()
        invariant
            i <= v.len(),
            out@ == v@.subrange(0, i as int),
        decreases v.len() - i,
    {
        out.push(v[i].clone());
        i = i + 1;
        assert(out@ =~= v@.subrange(0, i as int));
    }
    assert(v@.subrange(0, v@.len() as int) =~= v@);
    out
}

/// A copy of a list of amounts.
fn copy_amounts(v: &Vec<u128>) -> (r: Vec<u128>)
    ensures
        r@ == v@,
{
    let mut out: Vec<u128> = Vec::new();
    let mut i: usize = 0;
    while i < v.len()
        invariant
            i <= v.len(),
            out@ == v@.subrange(0, i as int),
        decreases v.len() - i,
    {
        out.push(v[i]);
        i = i + 1;
        assert(out@ =~= v@.subrange(0, i as int));
    }
    assert(v@.subrange(0, v@.len() as int) =~= v@);
    out
}

/// What the exchange shows of itself.
#[derive(Clone, Debug)]
pub struct ContractMetadata {
    pub version: String,
    pub owner: String,
    pub boost_farm_id: String,
    pub burrowland_id: String,
    pub guardians: Vec<String>,
    pub pool_count: u64,
    pub state: RunningState,
    pub admin_fee_bps: u32,
    pub cumulative_info_record_interval_sec: u32,
    pub wnear_id: Option<String>,
    pub auto_whitelisted_postfix: Vec<String>,
}

/// An account's NEAR and the storage it uses.
#[derive(Clone, Copy, Debug)]
pub struct AccountBaseInfo {
    pub near_amount: u128,
    pub storage_used: u64,
}

impl PoolInfo {
    /// What the exchange shows of a pool at `now`; refused where a stable pool's amounts
    /// leave 128 bits in the tokens' own decimals.
    pub fn from_pool(pool: &Pool, now: u64) -> (r: Result<PoolInfo, ExchangeError>)
        requires
            pool_wf(pool),
        ensures
            r matches Ok(info) ==> shows_pool(*pool, info, now),
            (*pool is SimplePool) ==> r is Ok,
            *pool is StableSwapPool ==> (r is Ok <==> spec_amounts(pool->StableSwapPool_0.c_amounts@, pool->StableSwapPool_0.token_decimals@) is Some),
    {
        let pool_kind = pool.kind();
        match pool {
            Pool::SimplePool(p) => Ok(PoolInfo {
                pool_kind,
                amp: 0,
                token_account_ids: copy_strings(&p.token_account_ids),
                amounts: copy_amounts(&p.amounts),
                total_fee: p.total_fee,
                shares_total_supply: p.shares_total_supply,
            }),
            Pool::StableSwapPool(p) => {
                let amounts = p.get_amounts()?;
                Ok(PoolInfo {
                    pool_kind,
                    amp: p.get_amp(now),
                    amounts,
                    token_account_ids: copy_strings(&p.token_account_ids),
                    total_fee: p.total_fee,
                    shares_total_supply: p.shares_total_supply,
                })
            },
        }
    }
}

impl Contract {
    /// Return contract basic info, with the version of the code it runs.
    pub fn metadata(&self, version: String) -> (r: ContractMetadata)
        ensures
            r.version == version,
            r.owner@ == self.owner_id@,
            r.boost_farm_id@ == self.boost_farm_id@,
            r.burrowland_id@ == self.burrowland_id@,
            r.guardians@ == self.guardians@,
            r.pool_count == self.pools@.len(),
            r.state == self.state,
            r.admin_fee_bps == self.admin_fee_bps,
            r.cumulative_info_record_interval_sec == self.cumulative_info_record_interval_sec,
            r.wnear_id == self.wnear_id,
            r.auto_whitelisted_postfix@ == self.auto_whitelisted_postfix@,
    {
        let wnear_id = match &self.wnear_id {
            Some(w) => Some(w.clone()),
            None => None,
        };
        ContractMetadata {
            version,
            owner: self.owner_id.clone(),
            boost_farm_id: self.boost_farm_id.clone(),
            burrowland_id: self.burrowland_id.clone(),
            guardians: copy_strings(&self.guardians),
            pool_count: self.pools.len() as u64,
            state: self.state,
            admin_fee_bps: self.admin_fee_bps,
            cumulative_info_record_interval_sec: self.cumulative_info_record_interval_sec,
            wnear_id,
            auto_whitelisted_postfix: copy_strings(&self.auto_whitelisted_postfix),
        }
    }

    /// An account's NEAR and the storage it uses; `None` where it is not registered.
    pub fn get_account_basic_info(&self, account: Option<&Account>) -> (r: Option<AccountBaseInfo>)
        ensures
            account is None ==> r is None,
            account is Some ==> r == Some(AccountBaseInfo { near_amount: account->0.near_amount, storage_used: account->0.storage_used }),
    {
        match account {
            Some(a) => Some(AccountBaseInfo { near_amount: a.near_amount, storage_used: a.storage_used }),
            None => None,
        }
    }

    /// Returns number of pools.
    pub fn get_number_of_pools(&self) -> (r: u64)
        ensures
            r == self.pools@.len(),
    {
        self.pools.len() as u64
    }

    /// Returns information about specified pool at `now`.
    pub fn get_pool(&self, pool_id: u64, now: u64) -> (r: Result<PoolInfo, ExchangeError>)
        requires
            contract_wf(self),
        ensures
            pool_id >= self.pools@.len() ==> r == Err::<PoolInfo, ExchangeError>(ExchangeError::NoPool),
            r matches Ok(info) ==> pool_id < self.pools@.len() && shows_pool(self.pools@[pool_id as int], info, now),
            pool_id < self.pools@.len() && self.pools@[pool_id as int] is SimplePool ==> r is Ok,
            pool_id < self.pools@.len() ==> (r is Ok <==> showable(self.pools@[pool_id as int])),
    {
        if pool_id >= self.pools.len() as u64 {
            return Err(ExchangeError::NoPool);
        }
        assert(pool_wf(&self.pools@[pool_id as int]));
        PoolInfo::from_pool(&self.pools[pool_id as usize], now)
    }

    /// Returns list of pools of given length from given start index, at `now`.
    pub fn get_pools(&self, from_index: u64, limit: u64, now: u64) -> (r: Result<Vec<PoolInfo>, ExchangeError>)
        requires
            contract_wf(self),
        ensures
            r matches Ok(infos) ==> {
                let end = if from_index + limit < self.pools@.len() { from_index + limit } else { self.pools@.len() as int };
                &&& infos@.len() == if from_index < end { end - from_index } else { 0 }
                &&& forall|i: int| 0 <= i < infos@.len() ==> shows_pool(self.pools@[from_index + i], #[trigger] infos@[i], now)
            },
            r is Ok <==> forall|i: int| from_index <= i < from_index + limit && i < self.pools@.len() ==> #[trigger] showable(self.pools@[i]),
    {
        let n = self.pools.len() as u64;
        let end: u64 = if (from_index as u128) + (limit as u128) < n as u128 { from_index + limit } else { n };
        let mut out: Vec<PoolInfo> = Vec::new();
        if from_index >= end {
            return Ok(out);
        }
        let mut i = from_index;
        while i < end
            invariant
                contract_wf(self),
                end <= self.pools@.len(),
                from_index <= i <= end,
                out@.len() == i - from_index,
                end == if from_index + limit < self.pools@.len() { from_index + limit } else { self.pools@.len() as int },
                forall|j: int| 0 <= j < out@.len() ==> shows_pool(self.pools@[from_index + j], #[trigger] out@[j], now),
                forall|j: int| from_index <= j < i ==> #[trigger] showable(self.pools@[j]),
            decreases end - i,
        {
            let info = match self.get_pool(i, now) {
                Ok(v) => v,
                Err(e) => {
                    assert(!showable(self.pools@[i as int]));
                    return Err(e);
                },
            };
            let ghost before = out@;
            out.push(info);
            proof {
                assert forall|j: int| 0 <= j < out@.len() implies shows_pool(self.pools@[from_index + j], #[trigger] out@[j], now) by {
                    if j < before.len() {
                        assert(out@[j] == before[j]);
                    }
                }
            }
            i = i + 1;
        }
        Ok(out)
    }

    /// Returns list of pools of given pool ids, at `now`.
    pub fn get_pool_by_ids(&self, pool_ids: &Vec<u64>, now: u64) -> (r: Result<Vec<PoolInfo>, ExchangeError>)
        requires
            contract_wf(self),
        ensures
            (exists|i: int| 0 <= i < pool_ids@.len() && pool_ids@[i] >= self.pools@.len()) ==> r is Err,
            r matches Ok(infos) ==> infos@.len() == pool_ids@.len()
                && forall|i: int| 0 <= i < infos@.len() ==> pool_ids@[i] < self.pools@.len() && shows_pool(self.pools@[pool_ids@[i] as int], #[trigger] infos@[i], now),
            r is Ok <==> forall|i: int| 0 <= i < pool_ids@.len() ==> #[trigger] pool_ids@[i] < self.pools@.len() && showable(self.pools@[pool_ids@[i] as int]),
    {
        let mut out: Vec<PoolInfo> = Vec::new();
        let mut i: usize = 0;
        while i < pool_ids.len()
            invariant
                contract_wf(self),
                i <= pool_ids.len(),
                out@.len() == i,
                forall|j: int| 0 <= j < i ==> #[trigger] pool_ids@[j] < self.pools@.len(),
                forall|j: int| 0 <= j < i ==> shows_pool(self.pools@[pool_ids@[j] as int], #[trigger] out@[j], now),
                forall|j: int| 0 <= j < i ==> showable(self.pools@[#[trigger] pool_ids@[j] as int]),
            decreases pool_ids.len() - i,
        {
            let pid = pool_ids[i];
            let info = match self.get_pool(pid, now) {
                Ok(v) => v,
                Err(e) => {
                    assert(!(pool_ids@[i as int] < self.pools@.len() && showable(self.pools@[pool_ids@[i as int] as int])));
                    return Err(e);
                },
            };
            let ghost before = out@;
            out.push(info);
            proof {
                assert forall|j: int| 0 <= j < i + 1 implies #[trigger] pool_ids@[j] < self.pools@.len() by {
                    if j < i {
                        assert(pool_ids@[j] < self.pools@.len());
                    }
                }
                assert forall|j: int| 0 <= j < i + 1 implies shows_pool(self.pools@[pool_ids@[j] as int], #[trigger] out@[j], now) by {
                    if j < i {
                        assert(out@[j] == before[j]);
                    }
                }
            }
            i = i + 1;
        }
        Ok(out)
    }

    /// Returns the total fee of the given pool.
    pub fn get_pool_fee(&self, pool_id: u64) -> (r: Result<u32, ExchangeError>)
        ensures
            pool_id >= self.pools@.len() ==> r == Err::<u32, ExchangeError>(ExchangeError::NoPool),
            pool_id < self.pools@.len() ==> r == Ok::<u32, ExchangeError>(match self.pools@[pool_id as int] {
                Pool::SimplePool(p) => p.total_fee,
                Pool::StableSwapPool(p) => p.total_fee,
            }),
    {
        if pool_id >= self.pools.len() as u64 {
            return Err(ExchangeError::NoPool);
        }
        Ok(self.pools[pool_id as usize].get_fee())
    }

    /// Return volumes of the given pool.
    pub fn get_pool_volumes(&self, pool_id: u64) -> (r: Result<Vec<SwapVolume>, ExchangeError>)
        ensures
            pool_id >= self.pools@.len() ==> r == Err::<Vec<SwapVolume>, ExchangeError>(ExchangeError::NoPool),
            pool_id < self.pools@.len() ==> (r matches Ok(v) && v@ == match self.pools@[pool_id as int] {
                Pool::SimplePool(p) => p.volumes@,
                Pool::StableSwapPool(p) => p.volumes@,
            }),
    {
        if pool_id >= self.pools.len() as u64 {
            return Err(ExchangeError::NoPool);
        }
        Ok(self.pools[pool_id as usize].get_volumes())
    }

    /// Returns the share price of the given pool; stable pools only.
    pub fn get_pool_share_price(&self, pool_id: u64) -> (r: Result<u128, ExchangeError>)
        ensures
            pool_id >= self.pools@.len() ==> r == Err::<u128, ExchangeError>(ExchangeError::NoPool),
            pool_id < self.pools@.len() && self.pools@[pool_id as int] is SimplePool ==> r == Err::<u128, ExchangeError>(ExchangeError::Unsupported),
    {
        if pool_id >= self.pools.len() as u64 {
            return Err(ExchangeError::NoPool);
        }
        self.pools[pool_id as usize].get_share_price()
    }

    /// Returns number of shares given account has in given pool.
    pub fn get_pool_shares(&self, pool_id: u64, account_id: &String) -> (r: Result<u128, ExchangeError>)
        ensures
            pool_id >= self.pools@.len() ==> r == Err::<u128, ExchangeError>(ExchangeError::NoPool),
            pool_id < self.pools@.len() ==> r == Ok::<u128, ExchangeError>(balance_in(pool_ledger(&self.pools@[pool_id as int]), account_id@) as u128),
    {
        if pool_id >= self.pools.len() as u64 {
            return Err(ExchangeError::NoPool);
        }
        Ok(self.pools[pool_id as usize].share_balances(account_id))
    }

    /// Returns total number of shares in the given pool.
    pub fn get_pool_total_shares(&self, pool_id: u64) -> (r: Result<u128, ExchangeError>)
        ensures
            pool_id >= self.pools@.len() ==> r == Err::<u128, ExchangeError>(ExchangeError::NoPool),
            pool_id < self.pools@.len() ==> r == Ok::<u128, ExchangeError>(pool_supply(&self.pools@[pool_id as int]) as u128),
    {
        if pool_id >= self.pools.len() as u64 {
            return Err(ExchangeError::NoPool);
        }
        Ok(self.pools[pool_id as usize].share_total_balance())
    }

    /// Returns balance of the deposit for given user outside of any pools: zero where the
    /// account is not registered or holds none of the token.
    pub fn get_deposit(&self, account: Option<&Account>, token_id: &String) -> (r: u128)
        ensures
            r == match account {
                Some(a) => match account_balance(a, token_id@) {
                    Some(v) => v,
                    None => 0u128,
                },
                None => 0u128,
            },
    {
        match account {
            Some(a) => match a.get_balance(token_id) {
                Some(v) => v,
                None => 0,
            },
            None => 0,
        }
    }

    /// Get contract level whitelisted tokens.
    pub fn get_whitelisted_tokens(&self) -> (r: Vec<String>)
        ensures
            r@ == self.whitelisted_tokens@,
    {
        self.whitelisted_tokens.clone()
    }

    /// Get frozen tokens.
    pub fn get_frozenlist_tokens(&self) -> (r: Vec<String>)
        ensures
            r@ == self.frozen_tokens@,
    {
        self.frozen_tokens.clone()
    }

    /// Get guardians.
    pub fn get_guardians(&self) -> (r: Vec<String>)
        ensures
            r@ == self.guardians@,
    {
        self.guardians.clone()
    }

    /// An account's NEAR for storage and what its storage costs at `byte_cost` per byte;
    /// `None` where the account is not registered.
    pub fn get_user_storage_state(&self, account: Option<&Account>, byte_cost: u128) -> (r: Result<Option<RefStorageState>, ExchangeError>)
        ensures
            account is None ==> r == Ok::<Option<RefStorageState>, ExchangeError>(None),
            account is Some && storage_cost(account->0, byte_cost as nat) <= u128::MAX ==> r == Ok::<Option<RefStorageState>, ExchangeError>(
                Some(RefStorageState { deposit: account->0.near_amount, usage: storage_cost(account->0, byte_cost as nat) as u128 }),
            ),
            account is Some && storage_cost(account->0, byte_cost as nat) > u128::MAX ==> r == Err::<Option<RefStorageState>, ExchangeError>(ExchangeError::ArithmeticOverflow),
    {
        match account {
            Some(a) => {
                let usage = a.storage_usage(byte_cost)?;
                Ok(Some(RefStorageState { deposit: a.near_amount, usage }))
            },
            None => Ok(None),
        }
    }

    /// Given specific pool, returns amount of token_out received swapping amount_in of
    /// token_in, with the admin fee and no referral; computed on this state, which is used up.
    pub fn get_return(
        self,
        pool_id: u64,
        token_in: &String,
        amount_in: u128,
        token_out: &String,
        exchange_id: &String,
        now: u64,
    ) -> (r: Result<u128, ExchangeError>)
        requires
            contract_wf(&self),
        ensures
            pool_id >= self.pools@.len() ==> r == Err::<u128, ExchangeError>(ExchangeError::NoPool),
            r matches Ok(out) ==> pool_id < self.pools@.len() && exists|fp: Pool| pool_swap_post(&self.pools@[pool_id as int], &fp, token_in@, amount_in as nat, token_out@, 0, swap_fees(&self, *exchange_id, None), now, out as nat),
            pool_id < self.pools@.len() ==> (r is Ok <==> pool_swap_ok(&self.pools@[pool_id as int], token_in@, amount_in as nat, token_out@, 0, swap_fees(&self, *exchange_id, None), now)),
            r matches Ok(out) ==> out == pool_swap_out(&self.pools@[pool_id as int], token_in@, amount_in as nat, token_out@, 0, swap_fees(&self, *exchange_id, None), now),
    {
        let ghost before = self;
        let mut state = self;
        let out = state.internal_pool_swap_by_cache(pool_id, token_in, amount_in, token_out, 0, &None, exchange_id, now)?;
        assert(pool_swap_post(&before.pools@[pool_id as int], &state.pools@[pool_id as int], token_in@, amount_in as nat, token_out@, 0, swap_fees(&before, *exchange_id, None), now, out as nat));
        Ok(out)
    }

    /// The swap `get_return` quotes goes through: where the pool takes the quoted swap of
    /// `amount_in` of `token_in` for `token_out` (no minimum, no referral) and pays `quote`, a
    /// request with no referral whose only action is that swap, with a minimum of at most
    /// `quote`, from an account that holds the amount in, never stops at a swap that cannot go
    /// through, where the pool's 256-bit volumes and the account's balance of the token out
    /// take the swap. With the exchange running and neither token frozen, `swap` then
    /// succeeds, and `lemma_get_return_is_swap_payout` says it pays `quote`.
    pub proof fn lemma_get_return_swap_goes_through(c: &Contract, a: &Account, action: SwapAction, exchange_id: String, now: u64, quote: nat)
        requires
            action.pool_id < c.pools@.len(),
            action.amount_in is Some,
            pool_swap_ok(&c.pools@[action.pool_id as int], action.token_in@, action.amount_in->0 as nat, action.token_out@, 0, swap_fees(c, exchange_id, None), now),
            quote == pool_swap_out(&c.pools@[action.pool_id as int], action.token_in@, action.amount_in->0 as nat, action.token_out@, 0, swap_fees(c, exchange_id, None), now),
            action.min_amount_out <= quote,
            account_balance(a, action.token_in@) is Some,
            account_balance(a, action.token_in@)->0 >= action.amount_in->0,
            volume_ok(c, action.pool_id, action.token_in@, action.amount_in->0 as nat, action.token_out@, quote),
            match account_balance(a, action.token_out@) {
                Some(v) => v + quote <= u128::MAX,
                None => true,
            },
        ensures
            !stops_with_referral(c, a, swap_actions(seq![action]), None, exchange_id, now),
    {
        let pid = action.pool_id as int;
        let x = action.amount_in->0 as nat;
        let fees = swap_fees(c, exchange_id, None);
        let p = c.pools@[pid];
        let m = action.min_amount_out as nat;
        reveal(simple_swap_ok);
        assert(pool_swap_ok(&p, action.token_in@, x, action.token_out@, m, fees, now));
        assert(pool_swap_out(&p, action.token_in@, x, action.token_out@, m, fees, now) == quote);
        assert(action.token_in@ != action.token_out@);
        let acts = swap_actions(seq![action]);
        assert(acts.len() == 1 && acts[0] == Action::Swap(action));
        assert(swap_action_ok(c, a, acts[0], ActionResult::Nothing, fees, now));
        if stops_with_referral(c, a, acts, None, exchange_id, now) {
            let ri = choose|ri: Option<(String, u32)>| referral_known(c, None, ri)
                && #[trigger] run_stops(c, a, acts, ActionResult::Nothing, swap_fees(c, exchange_id, ri), now);
            assert(ri is None);
            let (k, cs, accts, results) = choose|k: int, cs: Seq<Contract>, accts: Seq<Account>, results: Seq<ActionResult>|
                #[trigger] actions_stop(c, a, acts, ActionResult::Nothing, fees, now, k, cs, accts, results);
            assert(k == 0);
            assert(false);
        }
    }

    /// What `get_return` quotes is what the swap pays: where it quotes `quote` for `amount_in`
    /// of `token_in` into pool `pool_id` for `token_out`, a request with no referral whose only
    /// action is that swap, whatever its minimum, and which goes through, pays exactly `quote`.
    pub proof fn lemma_get_return_is_swap_payout(
        c: &Contract,
        fc: &Contract,
        a: &Account,
        fa: &Account,
        action: SwapAction,
        exchange_id: String,
        now: u64,
        quote: nat,
        paid: u128,
    )
        requires
            action.pool_id < c.pools@.len(),
            action.amount_in is Some,
            exists|fp: Pool| pool_swap_post(&c.pools@[action.pool_id as int], &fp, action.token_in@, action.amount_in->0 as nat, action.token_out@, 0, swap_fees(c, exchange_id, None), now, quote),
            ran_with_referral(c, fc, a, fa, swap_actions(seq![action]), None, exchange_id, now, ActionResult::Amount(paid)),
        ensures
            paid == quote,
    {
        let pid = action.pool_id as int;
        let fp = choose|fp: Pool| pool_swap_post(&c.pools@[pid], &fp, action.token_in@, action.amount_in->0 as nat, action.token_out@, 0, swap_fees(c, exchange_id, None), now, quote);
        let ri = choose|ri: Option<(String, u32)>| referral_known(c, None, ri)
            && #[trigger] ran_actions(c, fc, a, fa, swap_actions(seq![action]), ActionResult::Nothing, swap_fees(c, exchange_id, ri), now, ActionResult::Amount(paid));
        assert(ri is None);
        let acts = swap_actions(seq![action]);
        assert(acts.len() == 1 && acts[0] == Action::Swap(action));
        let fees = swap_fees(c, exchange_id, None);
        let (cs, accts, results) = choose|cs: Seq<Contract>, accts: Seq<Account>, results: Seq<ActionResult>|
            #[trigger] actions_trace(c, fc, a, fa, acts, ActionResult::Nothing, fees, now, ActionResult::Amount(paid), cs, accts, results);
        assert(swap_step(&cs[0], &cs[1], &accts[0], &accts[1], acts[0], results[0], fees, now, results[1]));
        assert(results[1] == ActionResult::Amount(paid));
        assert(cs[0] == *c);
    }

    /// The amounts a deposit of `amounts` into a simple pool would take, and the shares it
    /// would mint; computed on this state, which is used up.
    pub fn predict_add_simple_liquidity(self, pool_id: u64, amounts: &Vec<u128>) -> (r: Result<AddLiquidityPrediction, ExchangeError>)
        requires
            contract_wf(&self),
        ensures
            pool_id >= self.pools@.len() ==> r == Err::<AddLiquidityPrediction, ExchangeError>(ExchangeError::NoPool),
            pool_id < self.pools@.len() && self.pools@[pool_id as int] is StableSwapPool ==> r == Err::<AddLiquidityPrediction, ExchangeError>(ExchangeError::Unsupported),
            r matches Ok(pred) ==> pool_id < self.pools@.len() && self.pools@[pool_id as int] is SimplePool
                && predicted_deposit(self.pools@[pool_id as int], pred),
    {
        if pool_id >= self.pools.len() as u64 {
            return Err(ExchangeError::NoPool);
        }
        let ghost before = self;
        let mut state = self;
        let mut pool = state.pools.remove(pool_id as usize);
        assert(pool == before.pools@[pool_id as int]);
        assert(pool_wf(&pool));
        let mut need = amounts.clone();
        let shares = pool.add_liquidity(&String::from_str("@view"), &mut need)?;
        let ghost fp = pool->SimplePool_0;
        let pred = AddLiquidityPrediction { need_amounts: need, mint_shares: shares };
        assert(after_deposit(&before.pools@[pool_id as int]->SimplePool_0, &fp, "@view"@, pred.need_amounts@, pred.mint_shares as nat));
        assert(predicted_deposit(before.pools@[pool_id as int], pred));
        Ok(pred)
    }
}

} // verus!
