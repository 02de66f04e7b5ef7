//! Donations: an account gives its shares of a pool to the exchange, or its tokens to the
//! owner, and the event to report says so.
use crate::account_deposit::{account_balance, deposited, withdrawn, Account};
use crate::contract::{contract_wf, Contract};
use crate::errors::ExchangeError;
use crate::event::{Event, RunningState};
use crate::pool::{pool_ledger, pool_wf};
use crate::pool_shares::{balance_in, transferred};
use vstd::prelude::*;

verus! {

impl Contract {
    /// The caller donates shares of a pool to the exchange: `amount`, or all it holds; with
    /// one yoctoNEAR attached, while the exchange runs. Giving up the ledger entry as well is
    /// not offered by these pools.
    pub fn donation_share(
        &mut self,
        caller: &String,
        attached_deposit: u128,
        pool_id: u64,
        amount: Option<u128>,
        unregister: Option<bool>,
        exchange_id: &String,
    ) -> (r: Result<Event, ExchangeError>)
        requires
            contract_wf(old(self)),
        ensures
            contract_wf(final(self)),
            final(self).pools@.len() == old(self).pools@.len(),
            attached_deposit != 1 ==> r == Err::<Event, ExchangeError>(ExchangeError::OneYoctoRequired),
            attached_deposit == 1 && old(self).state != RunningState::Running ==> r == Err::<Event, ExchangeError>(ExchangeError::ContractPaused),
            attached_deposit == 1 && old(self).state == RunningState::Running && pool_id >= old(self).pools@.len() ==> r == Err::<Event, ExchangeError>(ExchangeError::NoPool),
            attached_deposit == 1 && old(self).state == RunningState::Running && pool_id < old(self).pools@.len() ==> {
                let ledger = pool_ledger(&old(self).pools@[pool_id as int]);
                let donated = match amount { Some(a) => a as nat, None => balance_in(ledger, caller@) };
                &&& donated == 0 ==> r == Err::<Event, ExchangeError>(ExchangeError::InvalidAmount)
                &&& r matches Ok(e) ==> {
                    &&& e == Event::DonationShare { account_id: *caller, pool_id, amount: donated as u128 }
                    &&& pool_ledger(&final(self).pools@[pool_id as int]) == transferred(ledger, caller@, exchange_id@, donated)
                }
            },
            r is Ok ==> unregister != Some(true),
            forall|j: int| 0 <= j < old(self).pools@.len() && j != pool_id ==> #[trigger] final(self).pools@[j] == old(self).pools@[j],
    {
        Self::assert_one_yocto(attached_deposit)?;
        self.assert_contract_running()?;
        if pool_id >= self.pools.len() as u64 {
            return Err(ExchangeError::NoPool);
        }
        let idx = pool_id as usize;
        let donation_amount = match amount {
            Some(a) => a,
            None => self.pools[idx].share_balances(caller),
        };
        if donation_amount == 0 {
            return Err(ExchangeError::InvalidAmount);
        }
        if unregister == Some(true) {
            return Err(ExchangeError::Unsupported);
        }
        let mut pool = self.pools.remove(idx);
        assert(pool == old(self).pools@[idx as int]);
        let res = pool.share_transfer(caller, exchange_id, donation_amount);
        self.pools.insert(idx, pool);
        proof {
            assert forall|j: int| 0 <= j < self.pools@.len() implies #[trigger] pool_wf(&self.pools@[j]) by {
                if j != idx {
                    assert(self.pools@[j] == old(self).pools@[j]);
                }
            }
        }
        res?;
        Ok(Event::DonationShare { account_id: caller.clone(), pool_id, amount: donation_amount })
    }

    /// The caller donates tokens to the owner: `amount`, or all it holds; with one yoctoNEAR
    /// attached, while the exchange runs. With `unregister`, the token leaves the caller's
    /// account, which must then hold none of it.
    pub fn donation_token(
        &self,
        caller: &String,
        attached_deposit: u128,
        account: &mut Account,
        owner_account: &mut Account,
        token_id: &String,
        amount: Option<u128>,
        unregister: Option<bool>,
    ) -> (r: Result<Event, ExchangeError>)
        ensures
            attached_deposit != 1 ==> r == Err::<Event, ExchangeError>(ExchangeError::OneYoctoRequired),
            attached_deposit == 1 && self.state != RunningState::Running ==> r == Err::<Event, ExchangeError>(ExchangeError::ContractPaused),
            attached_deposit == 1 && self.state == RunningState::Running && amount is None && account_balance(old(account), token_id@) is None
                ==> r == Err::<Event, ExchangeError>(ExchangeError::InvalidTokenId),
            r matches Ok(e) ==> {
                let donated = match amount { Some(a) => a, None => account_balance(old(account), token_id@)->0 };
                &&& donated > 0
                &&& e == Event::DonationToken { account_id: *caller, token_id: *token_id, amount: donated }
                &&& unregister != Some(true) ==> withdrawn(old(account), final(account), token_id@, donated as nat)
                &&& unregister == Some(true) ==> account_balance(final(account), token_id@) is None
                &&& deposited(old(owner_account), final(owner_account), token_id@, donated as nat)
            },
    {
        Self::assert_one_yocto(attached_deposit)?;
        self.assert_contract_running()?;
        let donation_amount = match amount {
            Some(a) => a,
            None => match account.get_balance(token_id) {
                Some(v) => v,
                None => {
                    return Err(ExchangeError::InvalidTokenId);
                },
            },
        };
        if donation_amount == 0 {
            return Err(ExchangeError::InvalidAmount);
        }
        account.withdraw(token_id, donation_amount)?;
        if unregister == Some(true) {
            account.unregister(token_id)?;
        }
        owner_account.deposit(token_id, donation_amount)?;
        Ok(Event::DonationToken { account_id: caller.clone(), token_id: token_id.clone(), amount: donation_amount })
    }
}

} // verus!
