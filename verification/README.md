# ref_exchange

The Ref Finance exchange on NEAR as a verified library: pools, swaps, liquidity, accounts,
fees, rates and oracle prices, with their contracts proved by Verus.

## Layout

- `src/` — the library. Every function there has its contract proved by Verus, but for the
  two wrappers of the `hex` crate in `oracle/pyth_oracle.rs`, whose contracts are trusted.
  - `simple_pool.rs`, `stable_swap/` (with `math.rs`), `pool.rs`, `pool_shares.rs`: the
    pools, their share ledgers and the stable-swap curve.
  - `contract.rs`, `token_receiver.rs`, `prediction.rs`, `owner.rs`, `donation.rs`,
    `multi_fungible_token.rs`, `stable_liquidity.rs`, `views.rs`: the exchange's requests,
    each taking the caller, the attached deposit and the time as arguments, and the accounts
    it touches.
  - `shadow_record.rs`, `shadow_steps.rs`: shares cast to the boost farm or to burrowland,
    and the decisions before and after the calls to those contracts.
  - `account_deposit.rs`, `action.rs`, `admin_fee.rs`, `swap_volume.rs`,
    `unit_lpt_cumulative_infos.rs`, `client_echo_limit.rs`, `pool_limit_info.rs`,
    `shadow_actions.rs`, `event.rs`, `errors.rs`, `utils.rs`, `u256.rs`: accounts, actions,
    fees, volumes, time-weighted averages, whitelists, ids, events and arithmetic.
  - `rated_swap/`, `degen_swap/`, `oracle/`: token rates and oracle prices.
- `tests/` — tests run against the compiled library.
- `app/` — the parts that talk to the blockchain: reading JSON messages and oracle
  replies, reporting events, keeping accounts between calls.

Every refused request returns an `ExchangeError`; the caller fails the whole request on
it, so a state that a refused request may have changed in part is never kept.
