//! Casting shares of a pool to the boost farm or to burrowland, releasing them, and
//! burrowland's liquidation of cast shares: the decisions the exchange takes before and after
//! the call it makes to the other contract.
use crate::account_deposit::{account_balance, deposited_all, shadow_of, Account};
use crate::contract::{contract_wf, is_frozen, Contract};
use crate::errors::ExchangeError;
use crate::event::RunningState;
use crate::pool::{liquidity_removed, pool_ledger, pool_tokens, pool_wf, Pool};
use crate::pool_shares::balance_in;
use crate::shadow_actions::{decimal, first_dash, parse_u64, pool_id_to_shadow_id, second_part, shadow_id_to_pool_id, shadow_prefix};
use crate::shadow_record::{empty_record, free_under, left_after, shadow_updated, ShadowActions, ShadowRecord};
use vstd::prelude::*;

verus! {

/// The call the exchange makes for a shadow action: to `receiver_id`, about `amount` shares of
/// the shadow `shadow_id`; a cast where `cast`, else a release.
pub struct ShadowCall {
    pub receiver_id: String,
    pub shadow_id: String,
    pub amount: u128,
    pub cast: bool,
}

/// Whether the action casts shares, rather than releasing them.
pub open spec fn is_cast(action: ShadowActions) -> bool {
    action == ShadowActions::ToFarming || action == ShadowActions::ToBurrowland
}

/// The most shares a shadow action may move: of the `total` shares the account holds, those
/// not yet cast where it casts; those cast where it releases.
pub open spec fn shadow_max(r: ShadowRecord, action: ShadowActions, total: nat) -> nat {
    match action {
        ShadowActions::ToFarming => left_after(total, r.shadow_in_farm as nat),
        ShadowActions::ToBurrowland => left_after(total, r.shadow_in_burrow as nat),
        ShadowActions::FromFarming => r.shadow_in_farm as nat,
        ShadowActions::FromBurrowland => r.shadow_in_burrow as nat,
    }
}

/// The records after `pool_id`'s record became `n`: a record with nothing cast goes.
pub open spec fn records_with(m: Map<u64, ShadowRecord>, pool_id: u64, n: ShadowRecord) -> Map<u64, ShadowRecord> {
    if n == empty_record() { m.remove(pool_id) } else { m.insert(pool_id, n) }
}

/// The shares burrowland's liquidation also takes back from the farm: what the liquidated
/// shares exceed of the shares then free, all of them where none is free.
pub open spec fn seed_to_withdraw(available: nat, liquidated: nat) -> nat {
    if available > 0 {
        if available > liquidated { 0 } else { (liquidated - available) as nat }
    } else {
        liquidated
    }
}

/// The pool a shadow id names: the number after its first dash.
pub open spec fn shadow_pool_id(shadow_id: Seq<char>) -> Option<u64> {
    parse_u64(second_part(shadow_id, choose|p: int| first_dash(shadow_id, p)))
}

/// The liquidated account's record after burrowland's liquidation of `amount` shares: released
/// from burrowland, and `seed` more from the farm where `seed` is positive.
pub open spec fn liquidated_records(m: Map<u64, ShadowRecord>, pool_id: u64, r1: ShadowRecord, seed: nat) -> Map<u64, ShadowRecord> {
    if seed > 0 {
        records_with(records_with(m, pool_id, r1), pool_id, shadow_updated(r1, ShadowActions::FromFarming, seed)->0)
    } else {
        records_with(m, pool_id, r1)
    }
}

impl Contract {
    /// A shadow action of `sender_id`'s account on its shares of pool `pool_id`, while the
    /// exchange runs: `amount` shares, or where none is given all that the action may move,
    /// which must be some and no more than that. A cast is recorded at once; a release only
    /// once the other contract confirms it. Returns the call to make: to burrowland or to the
    /// boost farm, as the action says.
    pub fn shadow_action_step(
        &self,
        account: &mut Account,
        sender_id: &String,
        action: ShadowActions,
        pool_id: u64,
        amount: Option<u128>,
    ) -> (r: Result<ShadowCall, ExchangeError>)
        ensures
            self.state != RunningState::Running ==> r == Err::<ShadowCall, ExchangeError>(ExchangeError::ContractPaused),
            self.state == RunningState::Running && pool_id >= self.pools@.len() ==> r == Err::<ShadowCall, ExchangeError>(ExchangeError::NoPool),
            self.state == RunningState::Running && pool_id < self.pools@.len() ==> {
                let total = balance_in(pool_ledger(&self.pools@[pool_id as int]), sender_id@) as nat;
                let rec = shadow_of(old(account), pool_id);
                let max = shadow_max(rec, action, total);
                let amt: nat = match amount { Some(v) => v as nat, None => max };
                &&& amt == 0 ==> r == Err::<ShadowCall, ExchangeError>(ExchangeError::ZeroShadowAmount)
                &&& amt > 0 && amt > max ==> r == Err::<ShadowCall, ExchangeError>(ExchangeError::ShadowAmountTooLarge { max: max as u128 })
                &&& amt > 0 && amt <= max ==> r is Ok && r->Ok_0.amount == amt && r->Ok_0.cast == is_cast(action)
                    && r->Ok_0.shadow_id@ == shadow_prefix() + decimal(pool_id as nat)
                    && r->Ok_0.receiver_id@ == if action == ShadowActions::ToBurrowland || action == ShadowActions::FromBurrowland {
                        self.burrowland_id@
                    } else {
                        self.boost_farm_id@
                    }
                    && (is_cast(action) ==> shadow_updated(rec, action, amt) is Some
                        && final(account).shadow_records@ == records_with(old(account).shadow_records@, pool_id, shadow_updated(rec, action, amt)->0))
                    && (!is_cast(action) ==> final(account).shadow_records@ == old(account).shadow_records@)
            },
            r is Err ==> final(account).shadow_records@ == old(account).shadow_records@,
            final(account).tokens@ == old(account).tokens@,
            final(account).legacy_tokens@ == old(account).legacy_tokens@,
            final(account).near_amount == old(account).near_amount,
    {
        self.assert_contract_running()?;
        if pool_id >= self.pools.len() as u64 {
            return Err(ExchangeError::NoPool);
        }
        let total = self.pools[pool_id as usize].share_balances(sender_id);
        let rec = match account.get_shadow_record(pool_id) {
            Some(rec) => rec,
            None => ShadowRecord { shadow_in_farm: 0, shadow_in_burrow: 0 },
        };
        let max = match action {
            ShadowActions::ToFarming => rec.available_farming_shares(total),
            ShadowActions::ToBurrowland => rec.available_burrowland_shares(total),
            ShadowActions::FromFarming => rec.shadow_in_farm,
            ShadowActions::FromBurrowland => rec.shadow_in_burrow,
        };
        let amount = match amount {
            Some(v) => v,
            None => max,
        };
        if amount == 0 {
            return Err(ExchangeError::ZeroShadowAmount);
        }
        if amount > max {
            return Err(ExchangeError::ShadowAmountTooLarge { max });
        }
        let (receiver_id, cast) = match action {
            ShadowActions::ToBurrowland => (self.burrowland_id.clone(), true),
            ShadowActions::FromBurrowland => (self.burrowland_id.clone(), false),
            ShadowActions::ToFarming => (self.boost_farm_id.clone(), true),
            ShadowActions::FromFarming => (self.boost_farm_id.clone(), false),
        };
        if cast {
            account.update_shadow_record(pool_id, action, amount)?;
        }
        Ok(ShadowCall { receiver_id, shadow_id: pool_id_to_shadow_id(pool_id), amount, cast })
    }
}


impl Contract {
    /// Burrowland liquidates `liquidate_share_amount` shares of the pool that `shadow_id`
    /// names, which `liquidation_account_id` cast to it; only burrowland may. The shares are
    /// released from burrowland; where they exceed the shares then left free, the rest is
    /// released from the farm too and returned, for the exchange to tell the farm. The shares
    /// are then burnt for their tokens, each at least its minimum, which the liquidator's
    /// account gets.
    pub fn on_burrow_liquidation_step(
        &mut self,
        caller: &String,
        liquidator: &mut Account,
        liquidation_account: &mut Account,
        liquidation_account_id: &String,
        shadow_id: &String,
        liquidate_share_amount: u128,
        min_token_amounts: Vec<u128>,
    ) -> (r: Result<u128, ExchangeError>)
        requires
            contract_wf(old(self)),
            exists|p: int| first_dash(shadow_id@, p),
        ensures
            contract_wf(final(self)),
            final(self).pools@.len() == old(self).pools@.len(),
            caller@ != old(self).burrowland_id@ ==> r == Err::<u128, ExchangeError>(ExchangeError::NotAllowed) && *final(self) == *old(self),
            caller@ == old(self).burrowland_id@ && shadow_pool_id(shadow_id@) is None ==> r == Err::<u128, ExchangeError>(ExchangeError::IllegalPoolId),
            caller@ == old(self).burrowland_id@ && shadow_pool_id(shadow_id@) is Some && shadow_pool_id(shadow_id@)->0 >= old(self).pools@.len()
                ==> r == Err::<u128, ExchangeError>(ExchangeError::NoPool),
            caller@ == old(self).burrowland_id@ && shadow_pool_id(shadow_id@) is Some && shadow_pool_id(shadow_id@)->0 < old(self).pools@.len()
                && (exists|i: int| 0 <= i < pool_tokens(&old(self).pools@[shadow_pool_id(shadow_id@)->0 as int]).len()
                    && is_frozen(old(self), #[trigger] pool_tokens(&old(self).pools@[shadow_pool_id(shadow_id@)->0 as int])[i]@))
                ==> r == Err::<u128, ExchangeError>(ExchangeError::FrozenToken),
            r matches Ok(seed) ==> {
                let pid = shadow_pool_id(shadow_id@)->0;
                let p = old(self).pools@[pid as int];
                let total = balance_in(pool_ledger(&p), liquidation_account_id@) as nat;
                let r1 = shadow_updated(shadow_of(old(liquidation_account), pid), ShadowActions::FromBurrowland, liquidate_share_amount as nat);
                let tokens = pool_tokens(&p);
                &&& caller@ == old(self).burrowland_id@
                &&& shadow_pool_id(shadow_id@) is Some
                &&& pid < old(self).pools@.len()
                &&& r1 is Some
                &&& seed == seed_to_withdraw(free_under(r1->0, total), liquidate_share_amount as nat)
                &&& seed > 0 ==> shadow_updated(r1->0, ShadowActions::FromFarming, seed as nat) is Some
                &&& final(liquidation_account).shadow_records@ == liquidated_records(old(liquidation_account).shadow_records@, pid, r1->0, seed as nat)
                &&& exists|out: Seq<u128>| #![trigger liquidity_removed(&p, &final(self).pools@[pid as int], liquidation_account_id@, liquidate_share_amount as nat, min_token_amounts@, out)]
                    liquidity_removed(&p, &final(self).pools@[pid as int], liquidation_account_id@, liquidate_share_amount as nat, min_token_amounts@, out)
                    && out.len() == tokens.len()
                    && deposited_all(old(liquidator), final(liquidator), tokens, out, tokens.len() as int)
                &&& forall|j: int| 0 <= j < old(self).pools@.len() && j != pid ==> #[trigger] final(self).pools@[j] == old(self).pools@[j]
            },
            final(liquidation_account).tokens@ == old(liquidation_account).tokens@,
            final(liquidation_account).legacy_tokens@ == old(liquidation_account).legacy_tokens@,
            final(liquidation_account).near_amount == old(liquidation_account).near_amount,
    {
        if *caller != self.burrowland_id {
            return Err(ExchangeError::NotAllowed);
        }
        let pool_id = shadow_id_to_pool_id(shadow_id)?;
        if pool_id >= self.pools.len() as u64 {
            return Err(ExchangeError::NoPool);
        }
        let idx = pool_id as usize;
        let tokens = self.pools[idx].tokens();
        self.assert_no_frozen_tokens(&tokens)?;
        let total = self.pools[idx].share_balances(liquidation_account_id);
        liquidation_account.update_shadow_record(pool_id, ShadowActions::FromBurrowland, liquidate_share_amount)?;
        let ghost rec1 = shadow_of(liquidation_account, pool_id);
        let available = match liquidation_account.get_shadow_record(pool_id) {
            Some(rec) => rec.free_shares(total),
            None => total,
        };
        let withdraw_seed_amount = if available > 0 {
            if available > liquidate_share_amount { 0 } else { liquidate_share_amount - available }
        } else {
            liquidate_share_amount
        };
        if withdraw_seed_amount > 0 {
            liquidation_account.update_shadow_record(pool_id, ShadowActions::FromFarming, withdraw_seed_amount)?;
        }
        let mut pool = self.pools.remove(idx);
        let ghost p0 = pool;
        assert(p0 == old(self).pools@[idx as int]);
        let outcome = self.remove_liquidity_from(&mut pool, liquidator, liquidation_account_id, liquidate_share_amount, min_token_amounts);
        let ghost p1 = pool;
        self.pools.insert(idx, pool);
        proof {
            assert(self.pools@[idx as int] == p1);
            assert forall|j: int| 0 <= j < self.pools@.len() implies #[trigger] pool_wf(&self.pools@[j]) by {
                if j != idx {
                    assert(self.pools@[j] == old(self).pools@[j]);
                }
            }
            assert forall|j: int| 0 <= j < old(self).pools@.len() && j != idx implies #[trigger] self.pools@[j] == old(self).pools@[j] by {
            }
        }
        match outcome {
            Ok(out) => {
                proof {
                    assert(liquidity_removed(&p0, &self.pools@[idx as int], liquidation_account_id@, liquidate_share_amount as nat, min_token_amounts@, out@));
                }
                Ok(withdraw_seed_amount)
            },
            Err(e) => Err(e),
        }
    }
}

/// After the other contract answered a shadow action: a cast it refused is undone, and a
/// release it confirmed is recorded. Returns whether the other contract took the action.
pub fn callback_on_shadow_step(account: &mut Account, action: ShadowActions, pool_id: u64, amount: u128, succeeded: bool) -> (r: Result<bool, ExchangeError>)
    ensures
        ({
            let rec = shadow_of(old(account), pool_id);
            let undo = match action {
                ShadowActions::ToFarming => ShadowActions::FromFarming,
                ShadowActions::ToBurrowland => ShadowActions::FromBurrowland,
                ShadowActions::FromFarming => ShadowActions::FromFarming,
                ShadowActions::FromBurrowland => ShadowActions::FromBurrowland,
            };
            &&& !succeeded && is_cast(action) ==> match shadow_updated(rec, undo, amount as nat) {
                Some(n) => r == Ok::<bool, ExchangeError>(false) && final(account).shadow_records@ == records_with(old(account).shadow_records@, pool_id, n),
                None => r == Err::<bool, ExchangeError>(ExchangeError::NotEnoughShadowShares),
            }
            &&& !succeeded && !is_cast(action) ==> r == Ok::<bool, ExchangeError>(false) && final(account).shadow_records@ == old(account).shadow_records@
            &&& succeeded && is_cast(action) ==> r == Ok::<bool, ExchangeError>(true) && final(account).shadow_records@ == old(account).shadow_records@
            &&& succeeded && !is_cast(action) ==> match shadow_updated(rec, action, amount as nat) {
                Some(n) => r == Ok::<bool, ExchangeError>(true) && final(account).shadow_records@ == records_with(old(account).shadow_records@, pool_id, n),
                None => r == Err::<bool, ExchangeError>(ExchangeError::NotEnoughShadowShares),
            }
        }),
        r is Err ==> final(account).shadow_records@ == old(account).shadow_records@,
        final(account).tokens@ == old(account).tokens@,
        final(account).legacy_tokens@ == old(account).legacy_tokens@,
        final(account).near_amount == old(account).near_amount,
{
    if !succeeded {
        match action {
            ShadowActions::ToFarming => {
                account.update_shadow_record(pool_id, ShadowActions::FromFarming, amount)?;
            },
            ShadowActions::ToBurrowland => {
                account.update_shadow_record(pool_id, ShadowActions::FromBurrowland, amount)?;
            },
            _ => {},
        }
        Ok(false)
    } else {
        match action {
            ShadowActions::FromFarming | ShadowActions::FromBurrowland => {
                account.update_shadow_record(pool_id, action, amount)?;
            },
            _ => {},
        }
        Ok(true)
    }
}

} // verus!
