//! Limits on the value a pool may hold.
use vstd::prelude::*;

verus! {

/// The most value, in total, a degen pool may hold.
#[derive(Clone, Copy, Debug)]
pub struct DegenPoolLimitInfo {
    pub tvl_limit: u128,
}

/// A degen pool limit, in any of its stored versions.
#[derive(Clone, Copy, Debug)]
pub enum VDegenPoolLimitInfo {
    Current(DegenPoolLimitInfo),
}

/// A pool limit, by the kind of pool.
#[derive(Clone, Copy, Debug)]
pub enum VPoolLimitInfo {
    DegenPoolLimit(VDegenPoolLimitInfo),
}

impl VDegenPoolLimitInfo {
    /// The limit in its current version.
    pub fn into_current(self) -> (r: DegenPoolLimitInfo)
        ensures
            match self {
                VDegenPoolLimitInfo::Current(c) => r == c,
            },
    {
        match self {
            VDegenPoolLimitInfo::Current(c) => c,
        }
    }

    /// The limit, stored in its current version.
    pub fn from_current(c: DegenPoolLimitInfo) -> (r: VDegenPoolLimitInfo)
        ensures
            r == VDegenPoolLimitInfo::Current(c),
    {
        VDegenPoolLimitInfo::Current(c)
    }
}

impl VPoolLimitInfo {
    /// The degen pool limit.
    pub fn get_degen_pool_limit(self) -> (r: DegenPoolLimitInfo)
        ensures
            match self {
                VPoolLimitInfo::DegenPoolLimit(VDegenPoolLimitInfo::Current(c)) => r == c,
            },
    {
        match self {
            VPoolLimitInfo::DegenPoolLimit(l) => l.into_current(),
        }
    }
}

} // verus!
