//! Generic pool, dispatching to the kinds of pools the exchange runs.
use crate::admin_fee::AdminFees;
use crate::errors::ExchangeError;
use crate::pool_shares::{balance_in, has_token, token_pos, transferred};
use crate::simple_pool::{
    after_deposit, deposit_outcome, opt_string_view, simple_deposit_ok, simple_remove_ok, same_pool, simple_pool_wf, simple_removed, simple_swap_ok, simple_swap_post,
    spec_get_return,
    SimplePool,
};
use crate::stable_swap::{
    same_but_shares, same_config, same_stable, spec_add_liquidity, spec_remove_by_tokens, spec_swap,
    stable_pool_wf, stable_remove_ok, stable_removed, StableSwapPool,
};
use crate::utils::SwapVolume;
use vstd::prelude::*;
use vstd::string::*;

verus! {

/// Generic Pool, providing wrapper around different implementations of swap pools.
/// Allows to add new types of pools just by adding extra item in the enum without needing to migrate the storage.
pub enum Pool {
    SimplePool(SimplePool),
    StableSwapPool(StableSwapPool),
}

/// The well-formedness of a pool of either kind.
pub open spec fn pool_wf(p: &Pool) -> bool {
    match p {
        Pool::SimplePool(s) => simple_pool_wf(s),
        Pool::StableSwapPool(s) => stable_pool_wf(s),
    }
}

/// The tokens of a pool.
pub open spec fn pool_tokens(p: &Pool) -> Seq<String> {
    match p {
        Pool::SimplePool(s) => s.token_account_ids@,
        Pool::StableSwapPool(s) => s.token_account_ids@,
    }
}

/// The share ledger of a pool.
pub open spec fn pool_ledger(p: &Pool) -> Map<Seq<char>, u128> {
    match p {
        Pool::SimplePool(s) => s.shares@,
        Pool::StableSwapPool(s) => s.shares@,
    }
}

/// The share supply of a pool.
pub open spec fn pool_supply(p: &Pool) -> nat {
    match p {
        Pool::SimplePool(s) => s.shares_total_supply as nat,
        Pool::StableSwapPool(s) => s.shares_total_supply as nat,
    }
}

/// Whether `p` and `fp` are the same pool in every field.
pub open spec fn pool_same(p: &Pool, fp: &Pool) -> bool {
    match (*p, *fp) {
        (Pool::SimplePool(a), Pool::SimplePool(b)) => same_pool(&a, &b),
        (Pool::StableSwapPool(a), Pool::StableSwapPool(b)) => same_stable(&a, &b),
        _ => false,
    }
}

/// Whether `amount` shares can move from `s` to `d` in the ledger: both have entries, `s`
/// holds enough, and `d`'s balance stays within 128 bits.
pub open spec fn share_transfer_ok(m: Map<Seq<char>, u128>, s: Seq<char>, d: Seq<char>, amount: nat) -> bool {
    &&& m.contains_key(s)
    &&& m[s] >= amount
    &&& m.contains_key(d)
    &&& (s == d || m[d] + amount <= u128::MAX)
}

/// The pool with `account` registered in its share ledger at zero, all else as it was.
pub open spec fn registered_pool(p: &Pool, fp: &Pool, account: Seq<char>) -> bool {
    &&& pool_ledger(fp) == pool_ledger(p).insert(account, 0)
    &&& match (*p, *fp) {
        (Pool::SimplePool(a), Pool::SimplePool(b)) => {
            &&& b.token_account_ids@ == a.token_account_ids@
            &&& b.amounts@ == a.amounts@
            &&& b.volumes@ == a.volumes@
            &&& b.total_fee == a.total_fee
            &&& b.exchange_fee == a.exchange_fee
            &&& b.referral_fee == a.referral_fee
            &&& b.shares_total_supply == a.shares_total_supply
        },
        (Pool::StableSwapPool(a), Pool::StableSwapPool(b)) => same_but_shares(&a, &b),
        _ => false,
    }
}

/// A simple pool after a deposit of `given`, of which it took `take`, minting `shares` to
/// `sender`.
pub open spec fn liquidity_added(p: &Pool, fp: &Pool, sender: Seq<char>, given: Seq<u128>, take: Seq<u128>, shares: nat) -> bool {
    match (*p, *fp) {
        (Pool::SimplePool(a), Pool::SimplePool(b)) => deposit_outcome(&a, given, take, shares) && after_deposit(&a, &b, sender, take, shares),
        _ => false,
    }
}

/// A pool after `sender` burnt `shares` for `out`, its part of every token.
pub open spec fn liquidity_removed(p: &Pool, fp: &Pool, sender: Seq<char>, shares: nat, mins: Seq<u128>, out: Seq<u128>) -> bool {
    match (*p, *fp) {
        (Pool::SimplePool(a), Pool::SimplePool(b)) => simple_removed(&a, &b, sender, shares, mins, out),
        (Pool::StableSwapPool(a), Pool::StableSwapPool(b)) => stable_removed(&a, &b, sender, shares, mins, out),
        _ => false,
    }
}

/// The referral's id among the admin fees, if any.
pub open spec fn referral_id_of(fees: AdminFees) -> Option<Seq<char>> {
    match fees.referral_info {
        Some((rid, _)) => Some(rid@),
        None => None,
    }
}

/// The pool `fp` and the payout `out` after a successful swap in `p`, as the pool's kind
/// defines it.
pub open spec fn pool_swap_post(
    p: &Pool,
    fp: &Pool,
    token_in: Seq<char>,
    amount_in: nat,
    token_out: Seq<char>,
    min_amount_out: nat,
    fees: AdminFees,
    now: u64,
    out: nat,
) -> bool {
    match (*p, *fp) {
        (Pool::SimplePool(a), Pool::SimplePool(b)) => simple_swap_post(
            &a,
            &b,
            token_in,
            amount_in,
            token_out,
            min_amount_out,
            fees.exchange_id@,
            referral_id_of(fees),
            out,
        ) && b.total_fee == a.total_fee && b.exchange_fee == a.exchange_fee && b.referral_fee == a.referral_fee,
        (Pool::StableSwapPool(a), Pool::StableSwapPool(b)) => match spec_swap(&a, token_in, amount_in, token_out, min_amount_out, fees, now) {
            Ok(t) => {
                &&& out == t.4
                &&& b.c_amounts@ == t.0
                &&& b.volumes@ == t.1
                &&& b.shares@ == t.2
                &&& b.shares_total_supply == t.3
                &&& b.token_account_ids@ == a.token_account_ids@
                &&& b.token_decimals@ == a.token_decimals@
                &&& b.total_fee == a.total_fee
                &&& b.init_amp_factor == a.init_amp_factor
                &&& b.target_amp_factor == a.target_amp_factor
                &&& b.init_amp_time == a.init_amp_time
                &&& b.stop_amp_time == a.stop_amp_time
            },
            Err(_) => false,
        },
        _ => false,
    }
}

/// Whether a swap of `amount_in` of `token_in` for `token_out` goes through in the pool.
pub open spec fn pool_swap_ok(
    p: &Pool,
    token_in: Seq<char>,
    amount_in: nat,
    token_out: Seq<char>,
    min_amount_out: nat,
    fees: AdminFees,
    now: u64,
) -> bool {
    match *p {
        Pool::SimplePool(a) => simple_swap_ok(&a, token_in, amount_in, token_out, min_amount_out, fees.exchange_id@, referral_id_of(fees)),
        Pool::StableSwapPool(a) => spec_swap(&a, token_in, amount_in, token_out, min_amount_out, fees, now) is Ok,
    }
}

/// What a swap that goes through pays out.
pub open spec fn pool_swap_out(
    p: &Pool,
    token_in: Seq<char>,
    amount_in: nat,
    token_out: Seq<char>,
    min_amount_out: nat,
    fees: AdminFees,
    now: u64,
) -> nat {
    match *p {
        Pool::SimplePool(a) => spec_get_return(
            amount_in,
            a.amounts@[token_pos(a.token_account_ids@, token_in)] as nat,
            a.amounts@[token_pos(a.token_account_ids@, token_out)] as nat,
            a.total_fee as nat,
        ),
        Pool::StableSwapPool(a) => spec_swap(&a, token_in, amount_in, token_out, min_amount_out, fees, now)->Ok_0.4,
    }
}

impl Pool {
    /// Returns pool kind.
    pub fn kind(&self) -> (r: String)
        ensures
            r@ == match *self {
                Pool::SimplePool(_) => "SIMPLE_POOL"@,
                Pool::StableSwapPool(_) => "STABLE_SWAP"@,
            },
    {
        match self {
            Pool::SimplePool(_) => String::from_str("SIMPLE_POOL"),
            Pool::StableSwapPool(_) => String::from_str("STABLE_SWAP"),
        }
    }

    /// Returns which tokens are in the underlying pool.
    pub fn tokens(&self) -> (r: &Vec<String>)
        ensures
            r@ == pool_tokens(self),
    {
        match self {
            Pool::SimplePool(pool) => pool.tokens(),
            Pool::StableSwapPool(pool) => pool.tokens(),
        }
    }

    /// Adds liquidity into underlying pool.
    /// Updates amounts to amount kept in the pool. Simple pools only.
    pub fn add_liquidity(&mut self, sender_id: &String, amounts: &mut Vec<u128>) -> (r: Result<u128, ExchangeError>)
        requires
            pool_wf(old(self)),
        ensures
            pool_wf(final(self)),
            match (*old(self), *final(self)) {
                (Pool::SimplePool(a), Pool::SimplePool(b)) => {
                    &&& r is Err ==> same_pool(&a, &b) && final(amounts)@ == old(amounts)@
                    &&& r matches Ok(s) ==> after_deposit(&a, &b, sender_id@, final(amounts)@, s as nat)
                },
                (Pool::StableSwapPool(a), Pool::StableSwapPool(b)) => r == Err::<u128, ExchangeError>(ExchangeError::Unsupported) && same_stable(&a, &b),
                _ => false,
            },
            r matches Ok(s) ==> liquidity_added(old(self), final(self), sender_id@, old(amounts)@, final(amounts)@, s as nat),
            *old(self) is SimplePool ==> (r is Ok <==> simple_deposit_ok(&old(self)->SimplePool_0, old(amounts)@, sender_id@)),
    {
        match self {
            Pool::SimplePool(pool) => pool.add_liquidity(sender_id, amounts),
            Pool::StableSwapPool(_) => Err(ExchangeError::Unsupported),
        }
    }

    /// Adds liquidity of a stable pool, minting at least `min_shares`. Stable pools only.
    pub fn add_stable_liquidity(
        &mut self,
        sender_id: &String,
        amounts: &Vec<u128>,
        min_shares: u128,
        admin_fee: &AdminFees,
        now: u64,
    ) -> (r: Result<u128, ExchangeError>)
        requires
            pool_wf(old(self)),
        ensures
            pool_wf(final(self)),
            match (*old(self), *final(self)) {
                (Pool::SimplePool(a), Pool::SimplePool(b)) => r == Err::<u128, ExchangeError>(ExchangeError::Unsupported) && same_pool(&a, &b),
                (Pool::StableSwapPool(a), Pool::StableSwapPool(b)) => match spec_add_liquidity(&a, sender_id@, amounts@, min_shares as nat, *admin_fee, now) {
                    Ok(t) => r == Ok::<u128, ExchangeError>(t.3 as u128) && b.c_amounts@ == t.0 && b.shares@ == t.1 && b.shares_total_supply == t.2 && same_config(&a, &b),
                    Err(e) => r == Err::<u128, ExchangeError>(e) && same_stable(&a, &b),
                },
                _ => false,
            },
    {
        match self {
            Pool::SimplePool(_) => Err(ExchangeError::Unsupported),
            Pool::StableSwapPool(pool) => pool.add_liquidity(sender_id, amounts, min_shares, admin_fee, now),
        }
    }

    /// Removes liquidity from underlying pool: the sender's `shares` are burnt for their part
    /// of every token.
    pub fn remove_liquidity(&mut self, sender_id: &String, shares: u128, min_amounts: Vec<u128>) -> (r: Result<Vec<u128>, ExchangeError>)
        requires
            pool_wf(old(self)),
        ensures
            pool_wf(final(self)),
            r is Err ==> pool_same(old(self), final(self)),
            *old(self) is SimplePool && min_amounts.len() < pool_tokens(old(self)).len() ==> r == Err::<Vec<u128>, ExchangeError>(ExchangeError::WrongTokenCount),
            r matches Ok(out) ==> liquidity_removed(old(self), final(self), sender_id@, shares as nat, min_amounts@, out@),
            *old(self) is SimplePool && min_amounts.len() >= pool_tokens(old(self)).len()
                && simple_remove_ok(&old(self)->SimplePool_0, sender_id@, shares as nat, min_amounts@) ==> r is Ok,
            *old(self) is StableSwapPool && stable_remove_ok(&old(self)->StableSwapPool_0, sender_id@, shares as nat, min_amounts@) ==> r is Ok,
    {
        match self {
            Pool::SimplePool(pool) => {
                if min_amounts.len() < pool.token_account_ids.len() {
                    return Err(ExchangeError::WrongTokenCount);
                }
                pool.remove_liquidity(sender_id, shares, min_amounts)
            },
            Pool::StableSwapPool(pool) => pool.remove_liquidity_by_shares(sender_id, shares, min_amounts),
        }
    }

    /// Removes liquidity from underlying pool by given amounts of tokens. Stable pools only.
    pub fn remove_liquidity_by_tokens(
        &mut self,
        sender_id: &String,
        amounts: Vec<u128>,
        max_burn_shares: u128,
        admin_fee: &AdminFees,
        now: u64,
    ) -> (r: Result<u128, ExchangeError>)
        requires
            pool_wf(old(self)),
        ensures
            pool_wf(final(self)),
            match (*old(self), *final(self)) {
                (Pool::SimplePool(a), Pool::SimplePool(b)) => r == Err::<u128, ExchangeError>(ExchangeError::Unsupported) && same_pool(&a, &b),
                (Pool::StableSwapPool(a), Pool::StableSwapPool(b)) => match spec_remove_by_tokens(&a, sender_id@, amounts@, max_burn_shares as nat, *admin_fee, now) {
                    Ok(t) => r == Ok::<u128, ExchangeError>(t.3 as u128) && b.c_amounts@ == t.0 && b.shares@ == t.1 && b.shares_total_supply == t.2 && same_config(&a, &b),
                    Err(e) => r == Err::<u128, ExchangeError>(e) && same_stable(&a, &b),
                },
                _ => false,
            },
    {
        match self {
            Pool::SimplePool(_) => Err(ExchangeError::Unsupported),
            Pool::StableSwapPool(pool) => pool.remove_liquidity_by_tokens(sender_id, amounts, max_burn_shares, admin_fee, now),
        }
    }

    /// Returns how many tokens will one receive swapping given amount of token_in for token_out.
    /// A stable pool quotes nothing here.
    pub fn get_return(&self, token_in: &String, amount_in: u128, token_out: &String) -> (r: Result<u128, ExchangeError>)
        requires
            pool_wf(self),
        ensures
            match *self {
                Pool::SimplePool(p) => {
                    &&& (!has_token(p.token_account_ids@, token_in@) || !has_token(p.token_account_ids@, token_out@)) ==> r == Err::<u128, ExchangeError>(ExchangeError::MissingToken)
                    &&& r matches Ok(v) ==> {
                        let i = token_pos(p.token_account_ids@, token_in@);
                        let o = token_pos(p.token_account_ids@, token_out@);
                        &&& v == spec_get_return(amount_in as nat, p.amounts@[i] as nat, p.amounts@[o] as nat, p.total_fee as nat)
                        &&& i != o && amount_in > 0 && p.amounts@[i] > 0 && p.amounts@[o] > 0
                    }
                },
                Pool::StableSwapPool(_) => r == Ok::<u128, ExchangeError>(0),
            },
    {
        match self {
            Pool::SimplePool(pool) => pool.get_return(token_in, amount_in, token_out),
            Pool::StableSwapPool(_) => Ok(0),
        }
    }

    /// Returns given pool's total fee.
    pub fn get_fee(&self) -> (r: u32)
        ensures
            r == match *self {
                Pool::SimplePool(p) => p.total_fee,
                Pool::StableSwapPool(p) => p.total_fee,
            },
    {
        match self {
            Pool::SimplePool(pool) => pool.get_fee(),
            Pool::StableSwapPool(pool) => pool.get_fee(),
        }
    }

    /// Returns volumes of the given pool.
    pub fn get_volumes(&self) -> (r: Vec<SwapVolume>)
        ensures
            r@ == match *self {
                Pool::SimplePool(p) => p.volumes@,
                Pool::StableSwapPool(p) => p.volumes@,
            },
    {
        match self {
            Pool::SimplePool(pool) => pool.get_volumes(),
            Pool::StableSwapPool(pool) => pool.get_volumes(),
        }
    }

    /// Returns given pool's share price. Stable pools only.
    pub fn get_share_price(&self) -> (r: Result<u128, ExchangeError>)
        ensures
            *self is SimplePool ==> r == Err::<u128, ExchangeError>(ExchangeError::Unsupported),
    {
        match self {
            Pool::SimplePool(_) => Err(ExchangeError::Unsupported),
            Pool::StableSwapPool(pool) => pool.get_share_price(),
        }
    }

    /// Swaps given number of token_in for token_out and returns received amount.
    pub fn swap(
        &mut self,
        token_in: &String,
        amount_in: u128,
        token_out: &String,
        min_amount_out: u128,
        admin_fee: &AdminFees,
        now: u64,
    ) -> (r: Result<u128, ExchangeError>)
        requires
            pool_wf(old(self)),
        ensures
            pool_wf(final(self)),
            r matches Ok(out) ==> pool_swap_post(old(self), final(self), token_in@, amount_in as nat, token_out@, min_amount_out as nat, *admin_fee, now, out as nat),
            r is Err ==> pool_same(old(self), final(self)),
            r is Ok <==> pool_swap_ok(old(self), token_in@, amount_in as nat, token_out@, min_amount_out as nat, *admin_fee, now),
            r matches Ok(out) ==> out == pool_swap_out(old(self), token_in@, amount_in as nat, token_out@, min_amount_out as nat, *admin_fee, now),
    {
        match self {
            Pool::SimplePool(pool) => {
                let referral_id: Option<String> = match &admin_fee.referral_info {
                    Some((rid, _)) => Some(rid.clone()),
                    None => None,
                };
                pool.swap(token_in, amount_in, token_out, min_amount_out, &admin_fee.exchange_id, &referral_id)
            },
            Pool::StableSwapPool(pool) => pool.swap(token_in, amount_in, token_out, min_amount_out, admin_fee, now),
        }
    }

    /// Total shares of the pool.
    pub fn share_total_balance(&self) -> (r: u128)
        ensures
            r == pool_supply(self),
    {
        match self {
            Pool::SimplePool(pool) => pool.share_total_balance(),
            Pool::StableSwapPool(pool) => pool.share_total_balance(),
        }
    }

    /// Shares of an account.
    pub fn share_balances(&self, account_id: &String) -> (r: u128)
        ensures
            r == balance_in(pool_ledger(self), account_id@),
    {
        match self {
            Pool::SimplePool(pool) => pool.share_balance_of(account_id),
            Pool::StableSwapPool(pool) => pool.share_balance_of(account_id),
        }
    }

    /// Moves shares between two registered accounts.
    pub fn share_transfer(&mut self, sender_id: &String, receiver_id: &String, amount: u128) -> (r: Result<(), ExchangeError>)
        ensures
            r is Ok <==> share_transfer_ok(pool_ledger(old(self)), sender_id@, receiver_id@, amount as nat),
            !pool_ledger(old(self)).contains_key(sender_id@) ==> r == Err::<(), ExchangeError>(
                if *old(self) is SimplePool { ExchangeError::NoShares } else { ExchangeError::LpNotRegistered },
            ),
            pool_ledger(old(self)).contains_key(sender_id@) && pool_ledger(old(self))[sender_id@] < amount ==> r == Err::<(), ExchangeError>(
                if *old(self) is SimplePool { ExchangeError::NotEnoughShares } else { ExchangeError::InsufficientLpShares },
            ),
            pool_ledger(old(self)).contains_key(sender_id@) && pool_ledger(old(self))[sender_id@] >= amount && !pool_ledger(old(self)).contains_key(receiver_id@)
                ==> r == Err::<(), ExchangeError>(ExchangeError::LpNotRegistered),
            r is Ok ==> pool_ledger(final(self)) == transferred(pool_ledger(old(self)), sender_id@, receiver_id@, amount as nat),
            r is Err ==> pool_ledger(final(self)) == pool_ledger(old(self)),
            pool_tokens(final(self)) == pool_tokens(old(self)),
            pool_supply(final(self)) == pool_supply(old(self)),
            (*old(self) is SimplePool) <==> (*final(self) is SimplePool),
            pool_wf(old(self)) ==> pool_wf(final(self)),
    {
        match self {
            Pool::SimplePool(pool) => pool.share_transfer(sender_id, receiver_id, amount),
            Pool::StableSwapPool(pool) => pool.share_transfer(sender_id, receiver_id, amount),
        }
    }

    /// Whether the account has an entry in the pool's share ledger.
    pub fn share_has_registered(&self, account_id: &String) -> (r: bool)
        ensures
            r == pool_ledger(self).contains_key(account_id@),
    {
        match self {
            Pool::SimplePool(pool) => pool.shares.contains_key(account_id.as_str()),
            Pool::StableSwapPool(pool) => pool.shares.contains_key(account_id.as_str()),
        }
    }

    /// Registers an account with no shares.
    pub fn share_register(&mut self, account_id: &String) -> (r: Result<(), ExchangeError>)
        ensures
            pool_ledger(old(self)).contains_key(account_id@) ==> r == Err::<(), ExchangeError>(ExchangeError::LpAlreadyRegistered) && pool_ledger(final(self)) == pool_ledger(old(self)),
            !pool_ledger(old(self)).contains_key(account_id@) ==> r is Ok && pool_ledger(final(self)) == pool_ledger(old(self)).insert(account_id@, 0),
            pool_tokens(final(self)) == pool_tokens(old(self)),
            pool_supply(final(self)) == pool_supply(old(self)),
            (*old(self) is SimplePool) <==> (*final(self) is SimplePool),
            pool_wf(old(self)) ==> pool_wf(final(self)),
            r is Ok ==> registered_pool(old(self), final(self), account_id@),
    {
        match self {
            Pool::SimplePool(pool) => pool.share_register(account_id),
            Pool::StableSwapPool(pool) => pool.share_register(account_id),
        }
    }

    /// The shares adding `amounts` would mint now. Stable pools only.
    pub fn predict_add_stable_liquidity(&self, amounts: &Vec<u128>, fees: &AdminFees, now: u64) -> (r: Result<u128, ExchangeError>)
        requires
            pool_wf(self),
        ensures
            *self is SimplePool ==> r == Err::<u128, ExchangeError>(ExchangeError::Unsupported),
    {
        match self {
            Pool::SimplePool(_) => Err(ExchangeError::Unsupported),
            Pool::StableSwapPool(pool) => pool.predict_add_stable_liquidity(amounts, fees, now),
        }
    }

    /// What withdrawing `shares` would pay out now. Stable pools only.
    pub fn predict_remove_liquidity(&self, shares: u128) -> (r: Result<Vec<u128>, ExchangeError>)
        requires
            pool_wf(self),
        ensures
            *self is SimplePool ==> r == Err::<Vec<u128>, ExchangeError>(ExchangeError::Unsupported),
    {
        match self {
            Pool::SimplePool(_) => Err(ExchangeError::Unsupported),
            Pool::StableSwapPool(pool) => pool.predict_remove_liquidity(shares),
        }
    }

    /// The shares withdrawing `amounts` would burn now. Stable pools only.
    pub fn predict_remove_liquidity_by_tokens(&self, amounts: &Vec<u128>, fees: &AdminFees, now: u64) -> (r: Result<u128, ExchangeError>)
        requires
            pool_wf(self),
        ensures
            *self is SimplePool ==> r == Err::<u128, ExchangeError>(ExchangeError::Unsupported),
    {
        match self {
            Pool::SimplePool(_) => Err(ExchangeError::Unsupported),
            Pool::StableSwapPool(pool) => pool.predict_remove_liquidity_by_tokens(amounts, fees, now),
        }
    }
}

} // verus!
