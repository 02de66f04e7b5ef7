//! Rates of tokens whose value follows another token's: how they are kept and refreshed.
use vstd::prelude::*;

pub mod linear_rate;
pub mod rate;
pub mod rates;
pub mod sfrax_rate;
pub mod stnear_rate;


verus! {

/// Precision of a stored rate: a rate of `PRECISION` is one to one.
pub const PRECISION: u128 = 1_000_000_000_000_000_000_000_000;

} // verus!
