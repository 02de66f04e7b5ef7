//! What an account has cast of its shares of each pool to the boost farm and to burrowland.
use crate::errors::ExchangeError;
use vstd::prelude::*;

verus! {

/// What a shadow action does with an account's shares of a pool: cast them to the boost farm
/// or to burrowland, or release them from there.
#[derive(Clone, Copy, Debug, PartialEq, Eq, Structural)]
pub enum ShadowActions {
    ToFarming,
    FromFarming,
    ToBurrowland,
    FromBurrowland,
}

/// The shares of one pool that an account has cast to the boost farm and to burrowland. Cast
/// shares stay in the pool; they cannot be moved or burnt while cast.
#[derive(Clone, Copy, Debug, PartialEq, Eq, Structural)]
pub struct ShadowRecord {
    pub shadow_in_farm: u128,
    pub shadow_in_burrow: u128,
}

/// A record with nothing cast.
pub open spec fn empty_record() -> ShadowRecord {
    ShadowRecord { shadow_in_farm: 0, shadow_in_burrow: 0 }
}

/// What is left of `total` after `cast`, nothing where `cast` covers it.
pub open spec fn left_after(total: nat, cast: nat) -> nat {
    if total > cast { (total - cast) as nat } else { 0 }
}

/// Of `total` shares, those cast nowhere under the record `r`.
pub open spec fn free_under(r: ShadowRecord, total: nat) -> nat {
    left_after(total, if r.shadow_in_farm >= r.shadow_in_burrow { r.shadow_in_farm as nat } else { r.shadow_in_burrow as nat })
}

/// The record after `amount` more shares are cast, or released, as `action` says: `None`
/// where a cast would leave 128 bits or a release asks for more than is cast.
pub open spec fn shadow_updated(r: ShadowRecord, action: ShadowActions, amount: nat) -> Option<ShadowRecord> {
    match action {
        ShadowActions::ToFarming => if r.shadow_in_farm + amount <= u128::MAX {
            Some(ShadowRecord { shadow_in_farm: (r.shadow_in_farm + amount) as u128, ..r })
        } else {
            None
        },
        ShadowActions::FromFarming => if r.shadow_in_farm >= amount {
            Some(ShadowRecord { shadow_in_farm: (r.shadow_in_farm - amount) as u128, ..r })
        } else {
            None
        },
        ShadowActions::ToBurrowland => if r.shadow_in_burrow + amount <= u128::MAX {
            Some(ShadowRecord { shadow_in_burrow: (r.shadow_in_burrow + amount) as u128, ..r })
        } else {
            None
        },
        ShadowActions::FromBurrowland => if r.shadow_in_burrow >= amount {
            Some(ShadowRecord { shadow_in_burrow: (r.shadow_in_burrow - amount) as u128, ..r })
        } else {
            None
        },
    }
}

impl ShadowRecord {
    /// Of `total` shares, those not cast to the farm.
    pub fn available_farming_shares(&self, total: u128) -> (r: u128)
        ensures
            r == left_after(total as nat, self.shadow_in_farm as nat),
    {
        if total > self.shadow_in_farm { total - self.shadow_in_farm } else { 0 }
    }

    /// Of `total` shares, those not cast to burrowland.
    pub fn available_burrowland_shares(&self, total: u128) -> (r: u128)
        ensures
            r == left_after(total as nat, self.shadow_in_burrow as nat),
    {
        if total > self.shadow_in_burrow { total - self.shadow_in_burrow } else { 0 }
    }

    /// Of `total` shares, those cast nowhere: what is left after the larger of the two casts.
    pub fn free_shares(&self, total: u128) -> (r: u128)
        ensures
            r == free_under(*self, total as nat),
    {
        let cast = if self.shadow_in_farm >= self.shadow_in_burrow { self.shadow_in_farm } else { self.shadow_in_burrow };
        if total > cast { total - cast } else { 0 }
    }

    /// Casts or releases `amount` shares, as `action` says.
    pub fn update_shadow_info(&mut self, action: ShadowActions, amount: u128) -> (r: Result<(), ExchangeError>)
        ensures
            shadow_updated(*old(self), action, amount as nat) matches Some(n) ==> r is Ok && *final(self) == n,
            shadow_updated(*old(self), action, amount as nat) is None ==> *final(self) == *old(self) && r == Err::<(), ExchangeError>(
                if action == ShadowActions::ToFarming || action == ShadowActions::ToBurrowland { ExchangeError::ArithmeticOverflow } else { ExchangeError::NotEnoughShadowShares },
            ),
    {
        match action {
            ShadowActions::ToFarming => match self.shadow_in_farm.checked_add(amount) {
                Some(v) => { self.shadow_in_farm = v; Ok(()) },
                None => Err(ExchangeError::ArithmeticOverflow),
            },
            ShadowActions::FromFarming => if self.shadow_in_farm >= amount {
                self.shadow_in_farm = self.shadow_in_farm - amount;
                Ok(())
            } else {
                Err(ExchangeError::NotEnoughShadowShares)
            },
            ShadowActions::ToBurrowland => match self.shadow_in_burrow.checked_add(amount) {
                Some(v) => { self.shadow_in_burrow = v; Ok(()) },
                None => Err(ExchangeError::ArithmeticOverflow),
            },
            ShadowActions::FromBurrowland => if self.shadow_in_burrow >= amount {
                self.shadow_in_burrow = self.shadow_in_burrow - amount;
                Ok(())
            } else {
                Err(ExchangeError::NotEnoughShadowShares)
            },
        }
    }
}

} // verus!
