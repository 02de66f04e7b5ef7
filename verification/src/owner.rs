//! What the owner and the guardians of the exchange may do. Each request names its caller
//! and the deposit attached to it; most ask for exactly one yoctoNEAR.
use crate::account_deposit::{account_balance, deposited_all, lemma_deposited_all_step, withdrawn, Account};
use crate::client_echo_limit::{list_view, without_ids};
use crate::contract::{contract_wf, Contract};
use crate::errors::ExchangeError;
use crate::event::RunningState;
use crate::pool::{liquidity_removed, pool_tokens, pool_wf, Pool};
use crate::utils::{extend_set, extended, FEE_DIVISOR};
use vstd::prelude::*;

verus! {

/// The caller is the owner or one of the guardians.
pub open spec fn owner_or_guardian(c: &Contract, caller: Seq<char>) -> bool {
    caller == c.owner_id@ || list_view(c.guardians@).contains(caller)
}

/// `list` with every entry equal to one of `ids` gone.
pub open spec fn reduced(list: Seq<String>, ids: Seq<String>, r: Seq<String>) -> bool {
    list_view(r) == list_view(list).filter(|x: Seq<char>| !list_view(ids).contains(x))
}

/// The exchange's `shares` of pool `pool_id` burnt for its part of every token, which the
/// owner's account got.
pub open spec fn fee_liquidity_removed(
    c: &Contract,
    fc: &Contract,
    a: &Account,
    fa: &Account,
    exchange_id: Seq<char>,
    pool_id: int,
    shares: nat,
    mins: Seq<u128>,
) -> bool {
    exists|out: Seq<u128>| #[trigger] liquidity_removed(&c.pools@[pool_id], &fc.pools@[pool_id], exchange_id, shares, mins, out)
        && out.len() == pool_tokens(&c.pools@[pool_id]).len()
        && deposited_all(a, fa, pool_tokens(&c.pools@[pool_id]), out, out.len() as int)
}

impl Contract {
    /// Refuses callers other than the owner.
    pub fn assert_owner(&self, caller: &String) -> (r: Result<(), ExchangeError>)
        ensures
            r is Ok <==> caller@ == self.owner_id@,
            r is Err ==> r == Err::<(), ExchangeError>(ExchangeError::NotAllowed),
    {
        if *caller == self.owner_id {
            Ok(())
        } else {
            Err(ExchangeError::NotAllowed)
        }
    }

    /// Refuses a request without exactly one yoctoNEAR attached.
    pub(crate) fn assert_one_yocto(attached_deposit: u128) -> (r: Result<(), ExchangeError>)
        ensures
            r is Ok <==> attached_deposit == 1,
            r is Err ==> r == Err::<(), ExchangeError>(ExchangeError::OneYoctoRequired),
    {
        if attached_deposit == 1 {
            Ok(())
        } else {
            Err(ExchangeError::OneYoctoRequired)
        }
    }

    /// Refuses callers other than the owner and the guardians.
    pub(crate) fn assert_owner_or_guardians(&self, caller: &String) -> (r: Result<(), ExchangeError>)
        ensures
            r is Ok <==> owner_or_guardian(self, caller@),
            r is Err ==> r == Err::<(), ExchangeError>(ExchangeError::NotAllowed),
    {
        if self.is_owner_or_guardians(caller) {
            proof {
                if caller@ != self.owner_id@ {
                    let i = choose|i: int| 0 <= i < self.guardians@.len() && #[trigger] self.guardians@[i]@ == caller@;
                    assert(list_view(self.guardians@)[i] == caller@);
                }
            }
            Ok(())
        } else {
            proof {
                if list_view(self.guardians@).contains(caller@) {
                    let i = choose|i: int| 0 <= i < list_view(self.guardians@).len() && list_view(self.guardians@)[i] == caller@;
                    assert(self.guardians@[i]@ == caller@);
                }
            }
            Err(ExchangeError::NotAllowed)
        }
    }

    /// Change owner. Only can be called by owner.
    pub fn set_owner(&mut self, caller: &String, attached_deposit: u128, owner_id: String) -> (r: Result<(), ExchangeError>)
        ensures
            attached_deposit != 1 ==> r == Err::<(), ExchangeError>(ExchangeError::OneYoctoRequired),
            attached_deposit == 1 && caller@ != old(self).owner_id@ ==> r == Err::<(), ExchangeError>(ExchangeError::NotAllowed),
            attached_deposit == 1 && caller@ == old(self).owner_id@ ==> r is Ok,
            r is Ok ==> *final(self) == (Contract { owner_id: owner_id, ..*old(self) }),
            r is Err ==> *final(self) == *old(self),
    {
        Self::assert_one_yocto(attached_deposit)?;
        self.assert_owner(caller)?;
        self.owner_id = owner_id;
        Ok(())
    }

    /// Get the owner of this account.
    pub fn get_owner(&self) -> (r: String)
        ensures
            r@ == self.owner_id@,
    {
        self.owner_id.clone()
    }

    /// Checks a request to retrieve tokens the exchange does not manage: by the owner, with
    /// one yoctoNEAR, of a positive amount. Sending them is the caller's part.
    pub fn retrieve_unmanaged_token(&self, caller: &String, attached_deposit: u128, amount: u128) -> (r: Result<(), ExchangeError>)
        ensures
            caller@ != self.owner_id@ ==> r == Err::<(), ExchangeError>(ExchangeError::NotAllowed),
            caller@ == self.owner_id@ && attached_deposit != 1 ==> r == Err::<(), ExchangeError>(ExchangeError::OneYoctoRequired),
            caller@ == self.owner_id@ && attached_deposit == 1 && amount == 0 ==> r == Err::<(), ExchangeError>(ExchangeError::IllegalWithdrawAmount),
            caller@ == self.owner_id@ && attached_deposit == 1 && amount > 0 ==> r is Ok,
    {
        self.assert_owner(caller)?;
        Self::assert_one_yocto(attached_deposit)?;
        if amount == 0 {
            return Err(ExchangeError::IllegalWithdrawAmount);
        }
        Ok(())
    }

    /// Extend guardians. Only can be called by owner.
    pub fn extend_guardians(&mut self, caller: &String, attached_deposit: u128, guardians: Vec<String>) -> (r: Result<(), ExchangeError>)
        ensures
            attached_deposit != 1 ==> r == Err::<(), ExchangeError>(ExchangeError::OneYoctoRequired),
            attached_deposit == 1 && caller@ != old(self).owner_id@ ==> r == Err::<(), ExchangeError>(ExchangeError::NotAllowed),
            attached_deposit == 1 && caller@ == old(self).owner_id@ ==> r is Ok,
            r is Ok ==> extended(old(self).guardians@, guardians@, final(self).guardians@)
                && *final(self) == (Contract { guardians: final(self).guardians, ..*old(self) }),
            r is Err ==> *final(self) == *old(self),
    {
        Self::assert_one_yocto(attached_deposit)?;
        self.assert_owner(caller)?;
        extend_set(&mut self.guardians, &guardians);
        Ok(())
    }

    /// Remove guardians. Only can be called by owner.
    pub fn remove_guardians(&mut self, caller: &String, attached_deposit: u128, guardians: Vec<String>) -> (r: Result<(), ExchangeError>)
        ensures
            attached_deposit != 1 ==> r == Err::<(), ExchangeError>(ExchangeError::OneYoctoRequired),
            attached_deposit == 1 && caller@ != old(self).owner_id@ ==> r == Err::<(), ExchangeError>(ExchangeError::NotAllowed),
            attached_deposit == 1 && caller@ == old(self).owner_id@ ==> r is Ok,
            r is Ok ==> reduced(old(self).guardians@, guardians@, final(self).guardians@)
                && *final(self) == (Contract { guardians: final(self).guardians, ..*old(self) }),
            r is Err ==> *final(self) == *old(self),
    {
        Self::assert_one_yocto(attached_deposit)?;
        self.assert_owner(caller)?;
        self.guardians = without_ids(&self.guardians, &guardians);
        Ok(())
    }

    /// Change state of contract, Only can be called by owner or guardians; only the owner
    /// resumes a paused exchange.
    pub fn change_state(&mut self, caller: &String, attached_deposit: u128, state: RunningState) -> (r: Result<(), ExchangeError>)
        ensures
            attached_deposit != 1 ==> r == Err::<(), ExchangeError>(ExchangeError::OneYoctoRequired),
            attached_deposit == 1 && !owner_or_guardian(old(self), caller@) ==> r == Err::<(), ExchangeError>(ExchangeError::NotAllowed),
            attached_deposit == 1 && owner_or_guardian(old(self), caller@) && old(self).state != state && state == RunningState::Running
                && caller@ != old(self).owner_id@ ==> r == Err::<(), ExchangeError>(ExchangeError::NotAllowed),
            r is Ok <==> attached_deposit == 1 && owner_or_guardian(old(self), caller@)
                && (old(self).state != state && state == RunningState::Running ==> caller@ == old(self).owner_id@),
            r is Ok ==> *final(self) == (Contract { state: state, ..*old(self) }),
            r is Err ==> *final(self) == *old(self),
    {
        Self::assert_one_yocto(attached_deposit)?;
        self.assert_owner_or_guardians(caller)?;
        if self.state != state {
            if state == RunningState::Running {
                // only owner can resume the contract
                self.assert_owner(caller)?;
            }
            self.state = state;
        }
        Ok(())
    }

    /// Extend whitelisted tokens with new tokens. Only can be called by owner or guardians.
    pub fn extend_whitelisted_tokens(&mut self, caller: &String, attached_deposit: u128, tokens: Vec<String>) -> (r: Result<(), ExchangeError>)
        ensures
            attached_deposit != 1 ==> r == Err::<(), ExchangeError>(ExchangeError::OneYoctoRequired),
            attached_deposit == 1 && !owner_or_guardian(old(self), caller@) ==> r == Err::<(), ExchangeError>(ExchangeError::NotAllowed),
            attached_deposit == 1 && owner_or_guardian(old(self), caller@) ==> r is Ok,
            r is Ok ==> extended(old(self).whitelisted_tokens@, tokens@, final(self).whitelisted_tokens@)
                && *final(self) == (Contract { whitelisted_tokens: final(self).whitelisted_tokens, ..*old(self) }),
            r is Err ==> *final(self) == *old(self),
    {
        Self::assert_one_yocto(attached_deposit)?;
        self.assert_owner_or_guardians(caller)?;
        extend_set(&mut self.whitelisted_tokens, &tokens);
        Ok(())
    }

    /// Remove whitelisted token. Only can be called by owner or guardians.
    pub fn remove_whitelisted_tokens(&mut self, caller: &String, attached_deposit: u128, tokens: Vec<String>) -> (r: Result<(), ExchangeError>)
        ensures
            attached_deposit != 1 ==> r == Err::<(), ExchangeError>(ExchangeError::OneYoctoRequired),
            attached_deposit == 1 && !owner_or_guardian(old(self), caller@) ==> r == Err::<(), ExchangeError>(ExchangeError::NotAllowed),
            attached_deposit == 1 && owner_or_guardian(old(self), caller@) ==> r is Ok,
            r is Ok ==> reduced(old(self).whitelisted_tokens@, tokens@, final(self).whitelisted_tokens@)
                && *final(self) == (Contract { whitelisted_tokens: final(self).whitelisted_tokens, ..*old(self) }),
            r is Err ==> *final(self) == *old(self),
    {
        Self::assert_one_yocto(attached_deposit)?;
        self.assert_owner_or_guardians(caller)?;
        self.whitelisted_tokens = without_ids(&self.whitelisted_tokens, &tokens);
        Ok(())
    }

    /// Sets the admin fee to `exchange_fee + referral_fee` basis points, at most the whole
    /// fee. Only can be called by owner.
    pub fn modify_admin_fee(&mut self, caller: &String, attached_deposit: u128, exchange_fee: u32, referral_fee: u32) -> (r: Result<(), ExchangeError>)
        ensures
            attached_deposit != 1 ==> r == Err::<(), ExchangeError>(ExchangeError::OneYoctoRequired),
            attached_deposit == 1 && caller@ != old(self).owner_id@ ==> r == Err::<(), ExchangeError>(ExchangeError::NotAllowed),
            attached_deposit == 1 && caller@ == old(self).owner_id@ && exchange_fee + referral_fee > FEE_DIVISOR ==> r == Err::<(), ExchangeError>(ExchangeError::IllegalFee),
            r is Ok <==> attached_deposit == 1 && caller@ == old(self).owner_id@ && exchange_fee + referral_fee <= FEE_DIVISOR,
            r is Ok ==> *final(self) == (Contract { admin_fee_bps: (exchange_fee + referral_fee) as u32, ..*old(self) }),
            r is Err ==> *final(self) == *old(self),
    {
        Self::assert_one_yocto(attached_deposit)?;
        self.assert_owner(caller)?;
        if exchange_fee as u64 + referral_fee as u64 > FEE_DIVISOR as u64 {
            return Err(ExchangeError::IllegalFee);
        }
        self.admin_fee_bps = exchange_fee + referral_fee;
        Ok(())
    }

    /// Withdraws a token from the owner's inner account, by the owner or a guardian, with one
    /// yoctoNEAR; sending it to the owner's wallet is the caller's part.
    pub fn withdraw_owner_token(
        &self,
        caller: &String,
        attached_deposit: u128,
        owner_account: &mut Account,
        token_id: &String,
        amount: u128,
    ) -> (r: Result<(), ExchangeError>)
        ensures
            attached_deposit != 1 ==> r == Err::<(), ExchangeError>(ExchangeError::OneYoctoRequired),
            attached_deposit == 1 && !owner_or_guardian(self, caller@) ==> r == Err::<(), ExchangeError>(ExchangeError::NotAllowed),
            attached_deposit == 1 && owner_or_guardian(self, caller@) && self.state != RunningState::Running ==> r == Err::<(), ExchangeError>(ExchangeError::ContractPaused),
            attached_deposit == 1 && owner_or_guardian(self, caller@) && self.state == RunningState::Running && amount == 0 ==> r == Err::<(), ExchangeError>(ExchangeError::IllegalWithdrawAmount),
            attached_deposit == 1 && owner_or_guardian(self, caller@) && self.state == RunningState::Running && amount > 0 ==> {
                &&& account_balance(old(owner_account), token_id@) is None ==> r == Err::<(), ExchangeError>(ExchangeError::TokenNotRegistered)
                &&& (account_balance(old(owner_account), token_id@) matches Some(b) && b < amount) ==> r == Err::<(), ExchangeError>(ExchangeError::NotEnoughTokens)
                &&& (account_balance(old(owner_account), token_id@) matches Some(b) && b >= amount) ==> r is Ok
            },
            r is Ok ==> withdrawn(old(owner_account), final(owner_account), token_id@, amount as nat),
            r is Err ==> final(owner_account).tokens@ == old(owner_account).tokens@ && final(owner_account).legacy_tokens@ == old(owner_account).legacy_tokens@,
    {
        Self::assert_one_yocto(attached_deposit)?;
        self.assert_owner_or_guardians(caller)?;
        self.assert_contract_running()?;
        if amount == 0 {
            return Err(ExchangeError::IllegalWithdrawAmount);
        }
        owner_account.withdraw(token_id, amount)
    }

    /// Removes the exchange's fee liquidity from a pool into the owner's inner account, by the
    /// owner or a guardian, with one yoctoNEAR.
    pub fn remove_exchange_fee_liquidity(
        &mut self,
        caller: &String,
        attached_deposit: u128,
        owner_account: &mut Account,
        exchange_id: &String,
        pool_id: u64,
        shares: u128,
        min_amounts: Vec<u128>,
    ) -> (r: Result<(), ExchangeError>)
        requires
            contract_wf(old(self)),
        ensures
            contract_wf(final(self)),
            final(self).pools@.len() == old(self).pools@.len(),
            attached_deposit != 1 ==> r == Err::<(), ExchangeError>(ExchangeError::OneYoctoRequired),
            attached_deposit == 1 && !owner_or_guardian(old(self), caller@) ==> r == Err::<(), ExchangeError>(ExchangeError::NotAllowed),
            attached_deposit == 1 && owner_or_guardian(old(self), caller@) && old(self).state != RunningState::Running ==> r == Err::<(), ExchangeError>(ExchangeError::ContractPaused),
            attached_deposit == 1 && owner_or_guardian(old(self), caller@) && old(self).state == RunningState::Running && pool_id >= old(self).pools@.len() ==> r == Err::<(), ExchangeError>(ExchangeError::NoPool),
            r is Ok ==> pool_id < old(self).pools@.len()
                && forall|j: int| 0 <= j < old(self).pools@.len() && j != pool_id ==> #[trigger] final(self).pools@[j] == old(self).pools@[j],
            r is Ok ==> fee_liquidity_removed(old(self), final(self), old(owner_account), final(owner_account), exchange_id@, pool_id as int, shares as nat, min_amounts@),
    {
        Self::assert_one_yocto(attached_deposit)?;
        self.assert_owner_or_guardians(caller)?;
        self.assert_contract_running()?;
        if pool_id >= self.pools.len() as u64 {
            return Err(ExchangeError::NoPool);
        }
        let idx = pool_id as usize;
        let mut pool = self.pools.remove(idx);
        assert(pool == old(self).pools@[idx as int]);
        let ghost mins = min_amounts@;
        let res = pool.remove_liquidity(exchange_id, shares, min_amounts);
        let ghost p1 = pool;
        self.pools.insert(idx, pool);
        proof {
            assert(self.pools@[idx as int] == p1);
            assert forall|j: int| 0 <= j < self.pools@.len() implies #[trigger] pool_wf(&self.pools@[j]) by {
                if j != idx {
                    assert(self.pools@[j] == old(self).pools@[j]);
                }
            }
        }
        let amounts = res?;
        let tokens = self.pools[idx].tokens();
        let ghost snapshot = *self;
        let ghost a0 = *owner_account;
        let ghost toks = pool_tokens(&old(self).pools@[idx as int]);
        proof {
            assert(tokens@ == toks);
            assert(liquidity_removed(&old(self).pools@[idx as int], &self.pools@[idx as int], exchange_id@, shares as nat, mins, amounts@));
        }
        let mut i: usize = 0;
        while i < tokens.len() && i < amounts.len()
            invariant
                *self == snapshot,
                tokens@ == toks,
                toks == pool_tokens(&old(self).pools@[pool_id as int]),
                amounts@.len() == toks.len(),
                i <= tokens.len(),
                liquidity_removed(&old(self).pools@[pool_id as int], &self.pools@[pool_id as int], exchange_id@, shares as nat, mins, amounts@),
                deposited_all(&a0, owner_account, toks, amounts@, i as int),
                attached_deposit == 1,
                owner_or_guardian(old(self), caller@),
                old(self).state == RunningState::Running,
                contract_wf(self),
                pool_id < old(self).pools@.len(),
                self.pools@.len() == old(self).pools@.len(),
                forall|j: int| 0 <= j < old(self).pools@.len() && j != pool_id ==> #[trigger] self.pools@[j] == old(self).pools@[j],
            decreases tokens.len() - i,
        {
            let ghost cur = *owner_account;
            owner_account.deposit(&tokens[i], amounts[i])?;
            proof {
                lemma_deposited_all_step(&a0, &cur, owner_account, toks, amounts@, i as int);
            }
            i = i + 1;
        }
        Ok(())
    }

    /// Starts moving a stable pool's amp factor towards `future_amp_factor`, to be reached at
    /// `future_amp_time`; by the owner or a guardian, with one yoctoNEAR.
    pub fn stable_swap_ramp_amp(
        &mut self,
        caller: &String,
        attached_deposit: u128,
        pool_id: u64,
        future_amp_factor: u64,
        future_amp_time: u64,
        now: u64,
    ) -> (r: Result<(), ExchangeError>)
        requires
            contract_wf(old(self)),
        ensures
            contract_wf(final(self)),
            final(self).pools@.len() == old(self).pools@.len(),
            attached_deposit != 1 ==> r == Err::<(), ExchangeError>(ExchangeError::OneYoctoRequired),
            attached_deposit == 1 && !owner_or_guardian(old(self), caller@) ==> r == Err::<(), ExchangeError>(ExchangeError::NotAllowed),
            attached_deposit == 1 && owner_or_guardian(old(self), caller@) && pool_id >= old(self).pools@.len() ==> r == Err::<(), ExchangeError>(ExchangeError::NoPool),
            attached_deposit == 1 && owner_or_guardian(old(self), caller@) && pool_id < old(self).pools@.len() && old(self).pools@[pool_id as int] is SimplePool
                ==> r == Err::<(), ExchangeError>(ExchangeError::NotStablePool),
            r is Ok ==> pool_id < old(self).pools@.len() && old(self).pools@[pool_id as int] is StableSwapPool && final(self).pools@[pool_id as int] is StableSwapPool && {
                let a = old(self).pools@[pool_id as int]->StableSwapPool_0;
                let b = final(self).pools@[pool_id as int]->StableSwapPool_0;
                &&& b.target_amp_factor == future_amp_factor
                &&& b.stop_amp_time == future_amp_time
                &&& b.init_amp_time == now
                &&& b.c_amounts@ == a.c_amounts@
                &&& b.shares@ == a.shares@
            },
            forall|j: int| 0 <= j < old(self).pools@.len() && j != pool_id ==> #[trigger] final(self).pools@[j] == old(self).pools@[j],
    {
        Self::assert_one_yocto(attached_deposit)?;
        self.assert_owner_or_guardians(caller)?;
        if pool_id >= self.pools.len() as u64 {
            return Err(ExchangeError::NoPool);
        }
        let idx = pool_id as usize;
        let mut pool = self.pools.remove(idx);
        assert(pool == old(self).pools@[idx as int]);
        assert(pool_wf(&pool));
        let res = match &mut pool {
            Pool::StableSwapPool(p) => p.ramp_amplification(future_amp_factor as u128, future_amp_time, now),
            Pool::SimplePool(_) => Err(ExchangeError::NotStablePool),
        };
        self.pools.insert(idx, pool);
        proof {
            assert forall|j: int| 0 <= j < self.pools@.len() implies #[trigger] pool_wf(&self.pools@[j]) by {
                if j != idx {
                    assert(self.pools@[j] == old(self).pools@[j]);
                }
            }
        }
        res
    }

    /// Stops moving a stable pool's amp factor, keeping the one reached now; by the owner or
    /// a guardian, with one yoctoNEAR.
    pub fn stable_swap_stop_ramp_amp(&mut self, caller: &String, attached_deposit: u128, pool_id: u64, now: u64) -> (r: Result<(), ExchangeError>)
        requires
            contract_wf(old(self)),
        ensures
            contract_wf(final(self)),
            final(self).pools@.len() == old(self).pools@.len(),
            attached_deposit != 1 ==> r == Err::<(), ExchangeError>(ExchangeError::OneYoctoRequired),
            attached_deposit == 1 && !owner_or_guardian(old(self), caller@) ==> r == Err::<(), ExchangeError>(ExchangeError::NotAllowed),
            attached_deposit == 1 && owner_or_guardian(old(self), caller@) && pool_id >= old(self).pools@.len() ==> r == Err::<(), ExchangeError>(ExchangeError::NoPool),
            attached_deposit == 1 && owner_or_guardian(old(self), caller@) && pool_id < old(self).pools@.len() && old(self).pools@[pool_id as int] is SimplePool
                ==> r == Err::<(), ExchangeError>(ExchangeError::NotStablePool),
            r is Ok ==> pool_id < old(self).pools@.len() && old(self).pools@[pool_id as int] is StableSwapPool && final(self).pools@[pool_id as int] is StableSwapPool && {
                let b = final(self).pools@[pool_id as int]->StableSwapPool_0;
                &&& b.target_amp_factor == b.init_amp_factor
                &&& b.init_amp_time == now
                &&& b.stop_amp_time == now
            },
            forall|j: int| 0 <= j < old(self).pools@.len() && j != pool_id ==> #[trigger] final(self).pools@[j] == old(self).pools@[j],
    {
        Self::assert_one_yocto(attached_deposit)?;
        self.assert_owner_or_guardians(caller)?;
        if pool_id >= self.pools.len() as u64 {
            return Err(ExchangeError::NoPool);
        }
        let idx = pool_id as usize;
        let mut pool = self.pools.remove(idx);
        assert(pool == old(self).pools@[idx as int]);
        assert(pool_wf(&pool));
        let res = match &mut pool {
            Pool::StableSwapPool(p) => p.stop_ramp_amplification(now),
            Pool::SimplePool(_) => Err(ExchangeError::NotStablePool),
        };
        self.pools.insert(idx, pool);
        proof {
            assert forall|j: int| 0 <= j < self.pools@.len() implies #[trigger] pool_wf(&self.pools@[j]) by {
                if j != idx {
                    assert(self.pools@[j] == old(self).pools@[j]);
                }
            }
        }
        res
    }
}

} // verus!
