//! How the admin part of pool fees is shared.
use crate::utils::{u128_ratio, FEE_DIVISOR};
use vstd::prelude::*;

verus! {

/// Maintain information about fees.
#[derive(Clone, Debug)]
pub struct AdminFees {
    /// Basis points of the admin fee in total fee.
    pub admin_fee_bps: u32,
    pub exchange_id: String,
    /// referral_id, referral_fee_bps,
    /// where referral_fee_bps is basis points of the referral fee in admin fee,
    /// and remaining admin fee belongs to exchange (protocol).
    pub referral_info: Option<(String, u32)>,
}

impl AdminFees {
    /// Admin fees for the exchange account `exchange_id`, without a referral.
    pub fn new(admin_fee_bps: u32, exchange_id: String) -> (r: AdminFees)
        ensures
            r.admin_fee_bps == admin_fee_bps,
            r.exchange_id == exchange_id,
            r.referral_info is None,
    {
        AdminFees { admin_fee_bps, exchange_id, referral_info: None }
    }

    /// No admin fee.
    pub fn zero(exchange_id: String) -> (r: AdminFees)
        ensures
            r.admin_fee_bps == 0,
            r.exchange_id == exchange_id,
            r.referral_info is None,
    {
        Self::new(0, exchange_id)
    }

    /// The referral's part of `admin_share`, and who receives it: the referral when there is
    /// one, else nobody but the exchange, with a zero part.
    pub fn calc_referral_share(&self, admin_share: u128) -> (r: (u128, String))
        requires
            self.referral_info matches Some((_, fee)) ==> (admin_share as nat * fee as nat)
                / 10_000 <= u128::MAX,
        ensures
            match self.referral_info {
                Some((referral, fee)) => r.0 == (admin_share as nat * fee as nat) / 10_000 && r.1
                    == referral,
                None => r.0 == 0 && r.1 == self.exchange_id,
            },
    {
        match &self.referral_info {
            Some((referral, referral_fee)) => {
                let referral_share = u128_ratio(admin_share, *referral_fee as u128, FEE_DIVISOR as u128);
                (referral_share, referral.clone())
            },
            None => (0, self.exchange_id.clone()),
        }
    }
}

} // verus!
