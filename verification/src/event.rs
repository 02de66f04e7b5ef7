//! Events the exchange reports, and whether it runs.
use vstd::prelude::*;

verus! {

/// A donation, to be reported.
#[derive(Clone, Debug)]
pub enum Event {
    DonationShare { account_id: String, pool_id: u64, amount: u128 },
    DonationToken { account_id: String, token_id: String, amount: u128 },
}

/// Whether the exchange accepts requests.
#[derive(Clone, Copy, Debug, PartialEq, Eq, Structural)]
pub enum RunningState {
    Running,
    Paused,
}

impl RunningState {
    /// The state's name.
    pub fn as_str(&self) -> (r: &'static str)
        ensures
            r@ == match *self {
                RunningState::Running => "Running"@,
                RunningState::Paused => "Paused"@,
            },
    {
        match self {
            RunningState::Running => "Running",
            RunningState::Paused => "Paused",
        }
    }
}

} // verus!
