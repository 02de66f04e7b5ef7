//! Verified core of an automated market maker exchange: pools, invariants and
//! the arithmetic they rest on.
pub mod account_deposit;
pub mod action;
pub mod admin_fee;
pub mod client_echo_limit;
pub mod contract;
pub mod degen_swap;
pub mod donation;
pub mod errors;
pub mod event;
pub mod multi_fungible_token;
pub mod oracle;
pub mod owner;
pub mod pool;
pub mod pool_limit_info;
pub mod pool_shares;
pub mod prediction;
pub mod rated_swap;
pub mod shadow_actions;
pub mod shadow_record;
pub mod shadow_steps;
pub mod simple_pool;
pub mod stable_liquidity;
pub mod stable_swap;
pub mod swap_volume;
pub mod token_receiver;
pub mod u256;
pub mod unit_lpt_cumulative_infos;
pub mod utils;
pub mod views;
