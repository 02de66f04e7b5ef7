//! Liquidity of a stable pool in any mix of its tokens: added from the account's deposits, or
//! removed for given amounts of tokens, which the account gets.
use crate::account_deposit::{
    can_deposit_all, can_withdraw_all, deposited_all, lemma_can_deposit_next, lemma_can_withdraw_next, lemma_deposited_all_step,
    lemma_withdrawn_all_step, shadow_of, withdrawn_all, Account,
};
use crate::admin_fee::AdminFees;
use crate::contract::{contract_wf, is_frozen, swap_fees, Contract};
use crate::errors::ExchangeError;
use crate::event::RunningState;
use crate::pool::{pool_ledger, pool_tokens, pool_wf, Pool};
use crate::pool_shares::balance_in;
use crate::shadow_record::free_under;
use crate::stable_swap::{same_config, spec_add_liquidity, spec_remove_by_tokens};
use crate::token_receiver::stable_added;
use vstd::prelude::*;

verus! {

/// Whether a token of pool `pool_id` of `c` is frozen.
pub open spec fn pool_frozen(c: &Contract, pool_id: u64) -> bool {
    exists|i: int| 0 <= i < pool_tokens(&c.pools@[pool_id as int]).len() && is_frozen(c, #[trigger] pool_tokens(&c.pools@[pool_id as int])[i]@)
}

impl Contract {
    /// Adds `amounts` of a stable pool's tokens, in any mix, from the account's deposits,
    /// minting at least `min_shares`; with a deposit attached, while the exchange runs.
    pub fn add_stable_liquidity(
        &mut self,
        account: &mut Account,
        sender_id: &String,
        pool_id: u64,
        amounts: Vec<u128>,
        min_shares: u128,
        attached_deposit: u128,
        exchange_id: &String,
        now: u64,
    ) -> (r: Result<u128, ExchangeError>)
        requires
            contract_wf(old(self)),
        ensures
            contract_wf(final(self)),
            final(self).pools@.len() == old(self).pools@.len(),
            old(self).state != RunningState::Running ==> r == Err::<u128, ExchangeError>(ExchangeError::ContractPaused),
            old(self).state == RunningState::Running && attached_deposit == 0 ==> r == Err::<u128, ExchangeError>(ExchangeError::AtLeastOneYocto),
            old(self).state == RunningState::Running && attached_deposit > 0 && pool_id >= old(self).pools@.len()
                ==> r == Err::<u128, ExchangeError>(ExchangeError::NoPool),
            old(self).state == RunningState::Running && attached_deposit > 0 && pool_id < old(self).pools@.len() && pool_frozen(old(self), pool_id)
                ==> r == Err::<u128, ExchangeError>(ExchangeError::FrozenToken),
            old(self).state == RunningState::Running && attached_deposit > 0 && pool_id < old(self).pools@.len() && !pool_frozen(old(self), pool_id) ==> {
                let p = old(self).pools@[pool_id as int];
                let fees = swap_fees(old(self), *exchange_id, None);
                let tokens = pool_tokens(&p);
                &&& p is SimplePool ==> r == Err::<u128, ExchangeError>(ExchangeError::Unsupported)
                &&& p matches Pool::StableSwapPool(s) ==> match spec_add_liquidity(&s, sender_id@, amounts@, min_shares as nat, fees, now) {
                    Err(e) => r == Err::<u128, ExchangeError>(e),
                    Ok(t) => {
                        &&& can_withdraw_all(old(account), tokens, amounts@, tokens.len() as int) ==> r is Ok
                        &&& r matches Ok(v) ==> {
                            &&& v == t.3
                            &&& final(self).pools@[pool_id as int] is StableSwapPool
                            &&& stable_added(&s, &final(self).pools@[pool_id as int]->StableSwapPool_0, sender_id@, amounts@, min_shares as nat, fees, now)
                            &&& withdrawn_all(old(account), final(account), tokens, amounts@, tokens.len() as int)
                        }
                    },
                }
            },
            r is Ok ==> forall|j: int| 0 <= j < old(self).pools@.len() && j != pool_id ==> #[trigger] final(self).pools@[j] == old(self).pools@[j],
    {
        self.assert_contract_running()?;
        if attached_deposit == 0 {
            return Err(ExchangeError::AtLeastOneYocto);
        }
        if pool_id >= self.pools.len() as u64 {
            return Err(ExchangeError::NoPool);
        }
        let idx = pool_id as usize;
        self.assert_no_frozen_tokens(self.pools[idx].tokens())?;
        let fees = AdminFees::new(self.admin_fee_bps, exchange_id.clone());
        proof {
            assert(fees == swap_fees(old(self), *exchange_id, None));
        }
        let mut pool = self.pools.remove(idx);
        let ghost p0 = pool;
        assert(p0 == old(self).pools@[idx as int]);
        assert(pool_wf(&pool));
        let res = pool.add_stable_liquidity(sender_id, &amounts, min_shares, &fees, now);
        let ghost p1 = pool;
        self.pools.insert(idx, pool);
        proof {
            assert(self.pools@[idx as int] == p1);
            assert forall|j: int| 0 <= j < self.pools@.len() implies #[trigger] pool_wf(&self.pools@[j]) by {
                if j != idx {
                    assert(self.pools@[j] == old(self).pools@[j]);
                }
            }
            assert forall|j: int| 0 <= j < old(self).pools@.len() && j != idx implies #[trigger] self.pools@[j] == old(self).pools@[j] by {
            }
        }
        let shares = res?;
        let tokens = self.pools[idx].tokens();
        let ghost a0 = *account;
        let ghost ok = can_withdraw_all(&a0, tokens@, amounts@, tokens@.len() as int);
        proof {
            assert(tokens@ == pool_tokens(&p0));
        }
        let mut i: usize = 0;
        while i < tokens.len() && i < amounts.len()
            invariant
                contract_wf(self),
                self.pools@.len() == old(self).pools@.len(),
                tokens@ == pool_tokens(&p0),
                amounts@.len() == tokens@.len(),
                i <= tokens.len(),
                withdrawn_all(&a0, account, tokens@, amounts@, i as int),
                ok == can_withdraw_all(&a0, tokens@, amounts@, tokens@.len() as int),
                old(self).state == RunningState::Running,
                attached_deposit > 0,
                pool_id < old(self).pools@.len(),
                p0 == old(self).pools@[pool_id as int],
                !pool_frozen(old(self), pool_id),
                p0 is StableSwapPool,
                spec_add_liquidity(&p0->StableSwapPool_0, sender_id@, amounts@, min_shares as nat, swap_fees(old(self), *exchange_id, None), now) is Ok,
                a0 == *old(account),
            decreases tokens.len() - i,
        {
            let ghost cur = *account;
            proof {
                if ok {
                    lemma_can_withdraw_next(&a0, &cur, tokens@, amounts@, i as int, tokens@.len() as int);
                }
            }
            account.withdraw(&tokens[i], amounts[i])?;
            proof {
                lemma_withdrawn_all_step(&a0, &cur, account, tokens@, amounts@, i as int);
            }
            i = i + 1;
        }
        Ok(shares)
    }

    /// Removes liquidity from a stable pool for `amounts` of its tokens, burning at most
    /// `max_burn_shares` of the account's shares and none it has cast to the farm or to
    /// burrowland; the account gets the tokens. With one yoctoNEAR, while the exchange runs.
    pub fn remove_liquidity_by_tokens(
        &mut self,
        account: &mut Account,
        sender_id: &String,
        pool_id: u64,
        amounts: Vec<u128>,
        max_burn_shares: u128,
        attached_deposit: u128,
        exchange_id: &String,
        now: u64,
    ) -> (r: Result<u128, ExchangeError>)
        requires
            contract_wf(old(self)),
        ensures
            contract_wf(final(self)),
            final(self).pools@.len() == old(self).pools@.len(),
            attached_deposit != 1 ==> r == Err::<u128, ExchangeError>(ExchangeError::OneYoctoRequired),
            attached_deposit == 1 && old(self).state != RunningState::Running ==> r == Err::<u128, ExchangeError>(ExchangeError::ContractPaused),
            attached_deposit == 1 && old(self).state == RunningState::Running && pool_id >= old(self).pools@.len()
                ==> r == Err::<u128, ExchangeError>(ExchangeError::NoPool),
            attached_deposit == 1 && old(self).state == RunningState::Running && pool_id < old(self).pools@.len() && pool_frozen(old(self), pool_id)
                ==> r == Err::<u128, ExchangeError>(ExchangeError::FrozenToken),
            attached_deposit == 1 && old(self).state == RunningState::Running && pool_id < old(self).pools@.len() && !pool_frozen(old(self), pool_id) ==> {
                let p = old(self).pools@[pool_id as int];
                let fees = swap_fees(old(self), *exchange_id, None);
                let tokens = pool_tokens(&p);
                let free = free_under(shadow_of(old(account), pool_id), balance_in(pool_ledger(&p), sender_id@) as nat);
                &&& p is SimplePool ==> r == Err::<u128, ExchangeError>(ExchangeError::Unsupported)
                &&& p matches Pool::StableSwapPool(s) ==> match spec_remove_by_tokens(&s, sender_id@, amounts@, max_burn_shares as nat, fees, now) {
                    Err(e) => r == Err::<u128, ExchangeError>(e),
                    Ok(t) => {
                        &&& t.3 > free ==> r == Err::<u128, ExchangeError>(ExchangeError::NotEnoughFreeShares)
                        &&& t.3 <= free && amounts@.len() == tokens.len() && can_deposit_all(old(account), tokens, amounts@, tokens.len() as int) ==> r is Ok
                        &&& r matches Ok(v) ==> {
                            let fs = final(self).pools@[pool_id as int]->StableSwapPool_0;
                            &&& v == t.3
                            &&& final(self).pools@[pool_id as int] is StableSwapPool
                            &&& fs.c_amounts@ == t.0 && fs.shares@ == t.1 && fs.shares_total_supply == t.2 && same_config(&s, &fs)
                            &&& amounts@.len() == tokens.len()
                            &&& deposited_all(old(account), final(account), tokens, amounts@, tokens.len() as int)
                        }
                    },
                }
            },
            r is Ok ==> forall|j: int| 0 <= j < old(self).pools@.len() && j != pool_id ==> #[trigger] final(self).pools@[j] == old(self).pools@[j],
    {
        Self::assert_one_yocto(attached_deposit)?;
        self.assert_contract_running()?;
        if pool_id >= self.pools.len() as u64 {
            return Err(ExchangeError::NoPool);
        }
        let idx = pool_id as usize;
        let total = self.pools[idx].share_balances(sender_id);
        let free_shares = match account.get_shadow_record(pool_id) {
            Some(rec) => rec.free_shares(total),
            None => total,
        };
        self.assert_no_frozen_tokens(self.pools[idx].tokens())?;
        let fees = AdminFees::new(self.admin_fee_bps, exchange_id.clone());
        proof {
            assert(fees == swap_fees(old(self), *exchange_id, None));
        }
        let mut pool = self.pools.remove(idx);
        let ghost p0 = pool;
        assert(p0 == old(self).pools@[idx as int]);
        assert(pool_wf(&pool));
        let res = pool.remove_liquidity_by_tokens(sender_id, amounts.clone(), max_burn_shares, &fees, now);
        let ghost p1 = pool;
        self.pools.insert(idx, pool);
        proof {
            assert(self.pools@[idx as int] == p1);
            assert forall|j: int| 0 <= j < self.pools@.len() implies #[trigger] pool_wf(&self.pools@[j]) by {
                if j != idx {
                    assert(self.pools@[j] == old(self).pools@[j]);
                }
            }
            assert forall|j: int| 0 <= j < old(self).pools@.len() && j != idx implies #[trigger] self.pools@[j] == old(self).pools@[j] by {
            }
        }
        let burn_shares = res?;
        let tokens = self.pools[idx].tokens();
        if burn_shares > free_shares {
            return Err(ExchangeError::NotEnoughFreeShares);
        }
        if amounts.len() != tokens.len() {
            return Err(ExchangeError::TokensCountIllegal);
        }
        let ghost a0 = *account;
        let ghost ok = can_deposit_all(&a0, tokens@, amounts@, tokens@.len() as int);
        proof {
            assert(tokens@ == pool_tokens(&p0));
        }
        let mut i: usize = 0;
        while i < tokens.len()
            invariant
                contract_wf(self),
                self.pools@.len() == old(self).pools@.len(),
                tokens@ == pool_tokens(&p0),
                amounts@.len() == tokens@.len(),
                i <= tokens.len(),
                deposited_all(&a0, account, tokens@, amounts@, i as int),
                ok == can_deposit_all(&a0, tokens@, amounts@, tokens@.len() as int),
                old(self).state == RunningState::Running,
                attached_deposit == 1,
                pool_id < old(self).pools@.len(),
                p0 == old(self).pools@[pool_id as int],
                !pool_frozen(old(self), pool_id),
                p0 is StableSwapPool,
                spec_remove_by_tokens(&p0->StableSwapPool_0, sender_id@, amounts@, max_burn_shares as nat, swap_fees(old(self), *exchange_id, None), now) is Ok,
                spec_remove_by_tokens(&p0->StableSwapPool_0, sender_id@, amounts@, max_burn_shares as nat, swap_fees(old(self), *exchange_id, None), now)->Ok_0.3
                    <= free_under(shadow_of(old(account), pool_id), balance_in(pool_ledger(&p0), sender_id@) as nat),
                a0 == *old(account),
            decreases tokens.len() - i,
        {
            let ghost cur = *account;
            proof {
                if ok {
                    lemma_can_deposit_next(&a0, &cur, tokens@, amounts@, i as int, tokens@.len() as int);
                }
            }
            account.deposit(&tokens[i], amounts[i])?;
            proof {
                lemma_deposited_all_step(&a0, &cur, account, tokens@, amounts@, i as int);
            }
            i = i + 1;
        }
        Ok(burn_shares)
    }
}

} // verus!
