//! Stable swap pools: the invariant calculator and the pool built on it.
//!
//! A pool keeps every token balance in "comparable" units of 18 decimals, so that
//! tokens of different decimals can be traded against each other at par.
use crate::admin_fee::AdminFees;
use crate::errors::ExchangeError;
use crate::pool_shares::{
    balance_in, find_token, has_token, is_first_index, mint_shares, minted, share_register,
    share_transfer, token_pos, transferred,
};
use crate::u256::{U256, u256_max};
use crate::utils::{SwapVolume, FEE_DIVISOR};
use math::{
    added_balances, lemma_amp_between, subtracted_balances, spec_amp_factor, spec_compute_d, spec_lp_for_deposit, spec_lp_for_withdraw,
    spec_swap_to, sum_amounts, sum_seq, Fees, StableSwap, SwapResult, MAX_AMP, MAX_AMP_CHANGE,
    MIN_AMP, MIN_RAMP_DURATION,
};
use vstd::hash_map::StringHashMap;
use vstd::prelude::*;

pub mod math;
pub mod math_laws;

verus! {

/// Fewest decimals a pool token may have.
pub const MIN_DECIMAL: u8 = 1;

/// Most decimals a pool token may have.
pub const MAX_DECIMAL: u8 = 24;

/// Decimals of the comparable amounts the pool keeps.
pub const TARGET_DECIMAL: u8 = 18;

/// Least comparable amount of each token that must stay in the pool.
pub const MIN_RESERVE: u128 = 10_000_000_000_000_000;

/// A pool of tokens of similar value, priced by the stable swap invariant.
pub struct StableSwapPool {
    /// List of tokens in the pool.
    pub token_account_ids: Vec<String>,
    /// Each decimals for tokens in the pool
    pub token_decimals: Vec<u8>,
    /// token amounts in comparable decimal.
    pub c_amounts: Vec<u128>,
    /// Volumes accumulated by this pool.
    pub volumes: Vec<SwapVolume>,
    /// Fee charged for swap (gets divided by FEE_DIVISOR).
    pub total_fee: u32,
    /// Shares of the pool by liquidity providers.
    pub shares: StringHashMap<u128>,
    /// Total number of shares.
    pub shares_total_supply: u128,
    /// Initial amplification coefficient.
    pub init_amp_factor: u128,
    /// Target for ramping up amplification coefficient.
    pub target_amp_factor: u128,
    /// Initial amplification time.
    pub init_amp_time: u64,
    /// Stop ramp up amplification time.
    pub stop_amp_time: u64,
}

/// Ten to the power `e`.
pub open spec fn ten_pow(e: nat) -> nat
    decreases e,
{
    if e == 0 {
        1
    } else {
        10 * ten_pow((e - 1) as nat)
    }
}

/// Powers of ten grow with the exponent.
pub proof fn lemma_ten_pow_mono(a: nat, b: nat)
    requires
        a <= b,
    ensures
        1 <= ten_pow(a) <= ten_pow(b),
    decreases b,
{
    if b > a {
        lemma_ten_pow_mono(a, (b - 1) as nat);
    } else if a > 0 {
        lemma_ten_pow_mono((a - 1) as nat, (a - 1) as nat);
    }
}

/// How many decimals separate a token of `d` decimals from the comparable amounts.
pub open spec fn dec_gap(d: nat) -> nat {
    if d <= 18 {
        (18 - d) as nat
    } else {
        (d - 18) as nat
    }
}

/// `amount` of a token of `d` decimals in comparable units, or `None` where it leaves 128 bits.
pub open spec fn spec_to_c(amount: nat, d: nat) -> Option<nat> {
    if d <= 18 {
        if amount * ten_pow(dec_gap(d)) > u128::MAX {
            None
        } else {
            Some(amount * ten_pow(dec_gap(d)))
        }
    } else {
        Some(amount / ten_pow(dec_gap(d)))
    }
}

/// A comparable amount `c` back in units of a token of `d` decimals, or `None` where it
/// leaves 128 bits.
pub open spec fn spec_from_c(c: nat, d: nat) -> Option<nat> {
    if d <= 18 {
        Some(c / ten_pow(dec_gap(d)))
    } else {
        if c * ten_pow(dec_gap(d)) > u128::MAX {
            None
        } else {
            Some(c * ten_pow(dec_gap(d)))
        }
    }
}

/// Every amount in comparable units, or `None` where one leaves 128 bits.
pub open spec fn spec_c_amounts(amounts: Seq<u128>, ds: Seq<u8>) -> Option<Seq<u128>> {
    if exists|i: int| 0 <= i < amounts.len() && #[trigger] spec_to_c(amounts[i] as nat, ds[i] as nat) is None {
        None
    } else {
        Some(Seq::new(amounts.len(), |i: int| spec_to_c(amounts[i] as nat, ds[i] as nat)->0 as u128))
    }
}

/// Every comparable amount in its token's units, or `None` where one leaves 128 bits.
pub open spec fn spec_amounts(cs: Seq<u128>, ds: Seq<u8>) -> Option<Seq<u128>> {
    if exists|i: int| 0 <= i < cs.len() && #[trigger] spec_from_c(cs[i] as nat, ds[i] as nat) is None {
        None
    } else {
        Some(Seq::new(cs.len(), |i: int| spec_from_c(cs[i] as nat, ds[i] as nat)->0 as u128))
    }
}

/// Decimals a pool accepts.
pub open spec fn decimals_ok(ds: Seq<u8>) -> bool {
    forall|i: int| 0 <= i < ds.len() ==> MIN_DECIMAL <= #[trigger] ds[i] <= MAX_DECIMAL
}

/// The well-formedness of a stable pool.
pub open spec fn stable_pool_wf(p: &StableSwapPool) -> bool {
    let n = p.token_account_ids.len();
    &&& p.token_decimals.len() == n
    &&& p.c_amounts.len() == n
    &&& p.volumes.len() == n
    &&& decimals_ok(p.token_decimals@)
    &&& p.total_fee < FEE_DIVISOR
    &&& p.init_amp_factor <= MAX_AMP
    &&& p.target_amp_factor <= MAX_AMP
}

/// The amplification coefficient of the pool at time `now`.
pub open spec fn pool_amp(p: &StableSwapPool, now: u64) -> Option<nat> {
    spec_amp_factor(
        p.init_amp_factor as nat,
        p.target_amp_factor as nat,
        now as nat,
        p.init_amp_time as nat,
        p.stop_amp_time as nat,
    )
}

/// Whether `p` and `fp` agree in every field.
pub open spec fn same_stable(p: &StableSwapPool, fp: &StableSwapPool) -> bool {
    &&& fp.token_account_ids@ == p.token_account_ids@
    &&& fp.token_decimals@ == p.token_decimals@
    &&& fp.c_amounts@ == p.c_amounts@
    &&& fp.volumes@ == p.volumes@
    &&& fp.total_fee == p.total_fee
    &&& fp.shares@ == p.shares@
    &&& fp.shares_total_supply == p.shares_total_supply
    &&& fp.init_amp_factor == p.init_amp_factor
    &&& fp.target_amp_factor == p.target_amp_factor
    &&& fp.init_amp_time == p.init_amp_time
    &&& fp.stop_amp_time == p.stop_amp_time
}

/// Whether `p` and `fp` agree in every field but the shares ledger.
pub open spec fn same_but_shares(p: &StableSwapPool, fp: &StableSwapPool) -> bool {
    &&& fp.token_account_ids@ == p.token_account_ids@
    &&& fp.token_decimals@ == p.token_decimals@
    &&& fp.c_amounts@ == p.c_amounts@
    &&& fp.volumes@ == p.volumes@
    &&& fp.total_fee == p.total_fee
    &&& fp.shares_total_supply == p.shares_total_supply
    &&& fp.init_amp_factor == p.init_amp_factor
    &&& fp.target_amp_factor == p.target_amp_factor
    &&& fp.init_amp_time == p.init_amp_time
    &&& fp.stop_amp_time == p.stop_amp_time
}

/// Turning a fee into shares only adds to the pool's balance of that coin.
proof fn lemma_fee_liq_step_grows(
    amp: Option<nat>,
    cs: Seq<u128>,
    m: Map<Seq<char>, u128>,
    supply: nat,
    o: int,
    k: Seq<char>,
    c: nat,
)
    requires
        0 <= o < cs.len(),
        c <= u128::MAX,
        fee_liq_step(amp, cs, m, supply, o, k, c) is Ok,
    ensures
        fee_liq_step(amp, cs, m, supply, o, k, c)->Ok_0.0.len() == cs.len(),
        fee_liq_step(amp, cs, m, supply, o, k, c)->Ok_0.0[o] >= cs[o],
{
    if c > 0 {
        let dep = single_deposit(cs.len(), o, c);
        assert(added_balances(cs, dep) is Some);
        assert(dep[o] == c as u128);
        assert(!(cs[o] + dep[o] > u128::MAX));
    }
}

/// A swap leaves at least `MIN_RESERVE` of the coin it pays out in the pool.
pub proof fn lemma_swap_keeps_min_reserve(
    p: &StableSwapPool,
    token_in: Seq<char>,
    amount_in: nat,
    token_out: Seq<char>,
    min_out: nat,
    fees: AdminFees,
    now: u64,
)
    requires
        stable_pool_wf(p),
        spec_swap(p, token_in, amount_in, token_out, min_out, fees, now) is Ok,
    ensures
        spec_swap(p, token_in, amount_in, token_out, min_out, fees, now)->Ok_0.0[token_pos(p.token_account_ids@, token_out)] >= MIN_RESERVE,
{
    let ids = p.token_account_ids@;
    let i = token_pos(ids, token_in);
    let o = token_pos(ids, token_out);
    assert(is_first_index(ids, token_out, o)) by {
        let w = choose|j: int| 0 <= j < ids.len() && ids[j]@ == token_out;
        assert(exists|j: int| is_first_index(ids, token_out, j)) by {
            lemma_first_index_exists(ids, token_out, w);
        }
    }
    assert(is_first_index(ids, token_in, i)) by {
        let w = choose|j: int| 0 <= j < ids.len() && ids[j]@ == token_in;
        assert(exists|j: int| is_first_index(ids, token_in, j)) by {
            lemma_first_index_exists(ids, token_in, w);
        }
    }
    let res = spec_swap_result(p, i, amount_in, o, fees, now)->Ok_0;
    let c1 = p.c_amounts@.update(i, res.new_source_amount).update(o, res.new_destination_amount);
    let amp = pool_amp(p, now);
    assert(c1[o] >= MIN_RESERVE);
    if !(fees.admin_fee_bps == 0 || res.admin_fee == 0) {
        let cut = referral_cut(fees, res.admin_fee as nat);
        let ref_fee = if cut.0 > 0 && p.shares@.contains_key(cut.1) { cut.0 } else { 0 };
        lemma_fee_liq_step_grows(amp, c1, p.shares@, p.shares_total_supply as nat, o, cut.1, ref_fee);
        let y = fee_liq_step(amp, c1, p.shares@, p.shares_total_supply as nat, o, cut.1, ref_fee)->Ok_0;
        lemma_fee_liq_step_grows(amp, y.0, y.1, y.2, o, fees.exchange_id@, (res.admin_fee - ref_fee) as nat);
    }
}

/// Where a token is among the ids, it has a first position.
proof fn lemma_first_index_exists(ids: Seq<String>, t: Seq<char>, w: int)
    requires
        0 <= w < ids.len(),
        ids[w]@ == t,
    ensures
        exists|j: int| is_first_index(ids, t, j),
    decreases w,
{
    if forall|j: int| 0 <= j < w ==> ids[j]@ != t {
        assert(is_first_index(ids, t, w));
    } else {
        let j = choose|j: int| 0 <= j < w && ids[j]@ == t;
        lemma_first_index_exists(ids, t, j);
    }
}

/// `10^dec_gap(d)`.
fn decimal_factor(d: u8) -> (r: u128)
    requires
        MIN_DECIMAL <= d <= MAX_DECIMAL,
    ensures
        r == ten_pow(dec_gap(d as nat)),
        r >= 1,
{
    let e: u8 = if d <= TARGET_DECIMAL {
        TARGET_DECIMAL - d
    } else {
        d - TARGET_DECIMAL
    };
    proof {
        reveal_with_fuel(ten_pow, 18);
        assert(ten_pow(17) == 100_000_000_000_000_000);
    }
    let mut f: u128 = 1;
    let mut k: u8 = 0;
    while k < e
        invariant
            e <= 17,
            k <= e,
            f == ten_pow(k as nat),
            ten_pow(17) == 100_000_000_000_000_000,
        decreases e - k,
    {
        proof {
            lemma_ten_pow_mono((k + 1) as nat, 17);
        }
        f = f * 10;
        k = k + 1;
    }
    proof {
        lemma_ten_pow_mono(0, e as nat);
    }
    f
}

/// A token amount in comparable units.
fn to_c(amount: u128, d: u8) -> (r: Result<u128, ExchangeError>)
    requires
        MIN_DECIMAL <= d <= MAX_DECIMAL,
    ensures
        match r {
            Ok(v) => spec_to_c(amount as nat, d as nat) == Some(v as nat),
            Err(e) => spec_to_c(amount as nat, d as nat) is None && e == ExchangeError::ArithmeticOverflow,
        },
{
    let factor = decimal_factor(d);
    if d <= TARGET_DECIMAL {
        match amount.checked_mul(factor) {
            Some(v) => Ok(v),
            None => Err(ExchangeError::ArithmeticOverflow),
        }
    } else {
        Ok(amount / factor)
    }
}

/// A comparable amount in units of a token.
fn from_c(c: u128, d: u8) -> (r: Result<u128, ExchangeError>)
    requires
        MIN_DECIMAL <= d <= MAX_DECIMAL,
    ensures
        match r {
            Ok(v) => spec_from_c(c as nat, d as nat) == Some(v as nat),
            Err(e) => spec_from_c(c as nat, d as nat) is None && e == ExchangeError::ArithmeticOverflow,
        },
{
    let factor = decimal_factor(d);
    if d <= TARGET_DECIMAL {
        Ok(c / factor)
    } else {
        match c.checked_mul(factor) {
            Some(v) => Ok(v),
            None => Err(ExchangeError::ArithmeticOverflow),
        }
    }
}

/// Whether `p` and `fp` agree in their tokens, fees, volumes and amplification.
pub open spec fn same_config(p: &StableSwapPool, fp: &StableSwapPool) -> bool {
    &&& fp.token_account_ids@ == p.token_account_ids@
    &&& fp.token_decimals@ == p.token_decimals@
    &&& fp.volumes@ == p.volumes@
    &&& fp.total_fee == p.total_fee
    &&& fp.init_amp_factor == p.init_amp_factor
    &&& fp.target_amp_factor == p.target_amp_factor
    &&& fp.init_amp_time == p.init_amp_time
    &&& fp.stop_amp_time == p.stop_amp_time
}

/// The shares minted for a deposit of `amounts` at time `now`, and the part of them the fees
/// took. The first deposit must bring every token and mints the invariant D itself, fee free;
/// later ones mint by the growth of D after imbalance fees.
pub open spec fn spec_calc_add(p: &StableSwapPool, amounts: Seq<u128>, now: u64) -> Result<(nat, nat), ExchangeError> {
    match spec_c_amounts(amounts, p.token_decimals@) {
        None => Err(ExchangeError::ArithmeticOverflow),
        Some(cs) => if p.shares_total_supply == 0 {
            if exists|i: int| 0 <= i < cs.len() && #[trigger] cs[i] == 0 {
                Err(ExchangeError::InitTokenBalance)
            } else {
                match spec_compute_d(pool_amp(p, now), cs) {
                    None => Err(ExchangeError::InvariantCalcErr),
                    Some(d) => if d > u128::MAX {
                        Err(ExchangeError::ArithmeticOverflow)
                    } else {
                        Ok((d, 0))
                    },
                }
            }
        } else {
            match spec_lp_for_deposit(pool_amp(p, now), cs, p.c_amounts@, p.shares_total_supply as nat, p.total_fee as nat) {
                None => Err(ExchangeError::LpShareCalcErr),
                Some(x) => Ok(x),
            }
        },
    }
}

/// The admin's part, `bps` basis points, of a fee of `fee_part`; `None` where it leaves
/// 128 bits.
pub open spec fn admin_part(fee_part: nat, bps: nat) -> Option<nat> {
    if fee_part * bps / 10_000 > u128::MAX {
        None
    } else {
        Some(fee_part * bps / 10_000)
    }
}

/// The referral's cut of `admin_share`, and who would receive it.
pub open spec fn referral_cut(fees: AdminFees, admin_share: nat) -> (nat, Seq<char>) {
    match fees.referral_info {
        Some((rid, f)) => (admin_share * f as nat / 10_000, rid@),
        None => (0, fees.exchange_id@),
    }
}

/// Whether minting `amount` to `k` keeps the supply and the balance within 128 bits.
pub open spec fn mint_fits(m: Map<Seq<char>, u128>, supply: nat, k: Seq<char>, amount: nat) -> bool {
    supply + amount <= u128::MAX && balance_in(m, k) + amount <= u128::MAX
}

/// The ledger and supply after `admin_share` new shares go to the fee receivers: a
/// registered referral takes its cut, the exchange the rest. `None` where the cut or a
/// balance leaves 128 bits, or the cut exceeds the share.
pub open spec fn spec_fee_mint(m: Map<Seq<char>, u128>, supply: nat, fees: AdminFees, admin_share: nat) -> Option<(Map<Seq<char>, u128>, nat)> {
    let cut = referral_cut(fees, admin_share);
    if cut.0 > u128::MAX {
        None
    } else if cut.0 > 0 && m.contains_key(cut.1) {
        let m1 = minted(m, cut.1, cut.0);
        let rest = (admin_share - cut.0) as nat;
        if cut.0 > admin_share || !mint_fits(m, supply, cut.1, cut.0) || !mint_fits(m1, supply + cut.0, fees.exchange_id@, rest) {
            None
        } else {
            Some((minted(m1, fees.exchange_id@, rest), supply + admin_share))
        }
    } else if !mint_fits(m, supply, fees.exchange_id@, admin_share) {
        None
    } else {
        Some((minted(m, fees.exchange_id@, admin_share), supply + admin_share))
    }
}

/// The ledger and supply after the admin's part of `fee_part` is minted; nothing where there
/// is no fee.
pub open spec fn spec_fee_part_mint(m: Map<Seq<char>, u128>, supply: nat, fees: AdminFees, fee_part: nat) -> Option<(Map<Seq<char>, u128>, nat)> {
    if fee_part == 0 {
        Some((m, supply))
    } else {
        match admin_part(fee_part, fees.admin_fee_bps as nat) {
            None => None,
            Some(a) => spec_fee_mint(m, supply, fees, a),
        }
    }
}

/// Adding liquidity: the new balances, ledger and supply, and the shares minted to `sender`.
pub open spec fn spec_add_liquidity(
    p: &StableSwapPool,
    sender: Seq<char>,
    amounts: Seq<u128>,
    min_shares: nat,
    fees: AdminFees,
    now: u64,
) -> Result<(Seq<u128>, Map<Seq<char>, u128>, nat, nat), ExchangeError> {
    if amounts.len() != p.token_account_ids.len() {
        Err(ExchangeError::TokensCountIllegal)
    } else {
        match spec_calc_add(p, amounts, now) {
            Err(e) => Err(e),
            Ok(x) => if x.0 < min_shares {
                Err(ExchangeError::Slippage)
            } else {
                match added_balances(p.c_amounts@, spec_c_amounts(amounts, p.token_decimals@)->0) {
                    None => Err(ExchangeError::ArithmeticOverflow),
                    Some(newc) => if !mint_fits(p.shares@, p.shares_total_supply as nat, sender, x.0) {
                        Err(ExchangeError::ArithmeticOverflow)
                    } else {
                        match spec_fee_part_mint(minted(p.shares@, sender, x.0), (p.shares_total_supply + x.0) as nat, fees, x.1) {
                            None => Err(ExchangeError::ArithmeticOverflow),
                            Some(y) => Ok((newc, y.0, y.1, x.0)),
                        }
                    },
                }
            },
        }
    }
}

/// `a * num / denom` as a 128-bit number, or `None` where it does not fit.
fn checked_ratio(a: u128, num: u128, denom: u128) -> (r: Option<u128>)
    requires
        denom > 0,
    ensures
        match r {
            Some(v) => v == a as nat * num as nat / denom as nat,
            None => a as nat * num as nat / denom as nat > u128::MAX,
        },
{
    proof {
        assert(a as nat * num as nat <= u128::MAX * u128::MAX) by (nonlinear_arith)
            requires
                a <= u128::MAX,
                num <= u128::MAX,
        ;
        assert(u128::MAX * u128::MAX <= u256_max()) by (nonlinear_arith);
    }
    U256::from_u128(a).mul(&U256::from_u128(num)).div(&U256::from_u128(denom)).to_u128()
}

/// Puts back an account's balance as it was before a mint.
fn restore_balance(shares: &mut StringHashMap<u128>, account_id: &String, prev: Option<u128>)
    ensures
        match prev {
            Some(v) => final(shares)@ == old(shares)@.insert(account_id@, v),
            None => final(shares)@ == old(shares)@.remove(account_id@),
        },
{
    match prev {
        Some(v) => shares.insert(account_id.clone(), v),
        None => shares.remove(account_id.as_str()),
    }
}

/// Mints `admin_share` new shares to the fee receivers, or changes nothing where that fails.
fn distribute_admin_share(
    shares: &mut StringHashMap<u128>,
    total: &mut u128,
    fees: &AdminFees,
    admin_share: u128,
) -> (r: Result<(), ExchangeError>)
    ensures
        match spec_fee_mint(old(shares)@, *old(total) as nat, *fees, admin_share as nat) {
            Some(y) => r is Ok && final(shares)@ == y.0 && *final(total) == y.1,
            None => r == Err::<(), ExchangeError>(ExchangeError::ArithmeticOverflow) && final(shares)@ == old(shares)@ && *final(total) == *old(total),
        },
{
    let ghost cut = referral_cut(*fees, admin_share as nat);
    let (referral_share, referral_id) = match &fees.referral_info {
        Some((rid, f)) => match checked_ratio(admin_share, *f as u128, FEE_DIVISOR as u128) {
            Some(_) => fees.calc_referral_share(admin_share),
            None => {
                return Err(ExchangeError::ArithmeticOverflow);
            },
        },
        None => fees.calc_referral_share(admin_share),
    };
    assert(referral_share == cut.0 && referral_id@ == cut.1);
    if referral_share > 0 && shares.contains_key(referral_id.as_str()) {
        if referral_share > admin_share {
            return Err(ExchangeError::ArithmeticOverflow);
        }
        let rest = admin_share - referral_share;
        let rb = match shares.get(referral_id.as_str()) {
            Some(v) => *v,
            None => 0,
        };
        if *total > u128::MAX - referral_share || rb > u128::MAX - referral_share {
            return Err(ExchangeError::ArithmeticOverflow);
        }
        let eb0 = match shares.get(fees.exchange_id.as_str()) {
            Some(v) => *v,
            None => 0,
        };
        let eb = if referral_id == fees.exchange_id {
            eb0 + referral_share
        } else {
            eb0
        };
        proof {
            let m1 = minted(old(shares)@, cut.1, cut.0);
            assert(balance_in(m1, fees.exchange_id@) == eb);
        }
        if *total + referral_share > u128::MAX - rest || eb > u128::MAX - rest {
            return Err(ExchangeError::ArithmeticOverflow);
        }
        mint_shares(shares, total, &referral_id, referral_share);
        mint_shares(shares, total, &fees.exchange_id, rest);
        Ok(())
    } else {
        let eb = match shares.get(fees.exchange_id.as_str()) {
            Some(v) => *v,
            None => 0,
        };
        if *total > u128::MAX - admin_share || eb > u128::MAX - admin_share {
            return Err(ExchangeError::ArithmeticOverflow);
        }
        mint_shares(shares, total, &fees.exchange_id, admin_share);
        Ok(())
    }
}

/// Mints the admin's part of a fee of `fee_part` shares, or changes nothing where that fails.
fn distribute_fee_part(
    shares: &mut StringHashMap<u128>,
    total: &mut u128,
    fees: &AdminFees,
    fee_part: u128,
) -> (r: Result<(), ExchangeError>)
    ensures
        match spec_fee_part_mint(old(shares)@, *old(total) as nat, *fees, fee_part as nat) {
            Some(y) => r is Ok && final(shares)@ == y.0 && *final(total) == y.1,
            None => r == Err::<(), ExchangeError>(ExchangeError::ArithmeticOverflow) && final(shares)@ == old(shares)@ && *final(total) == *old(total),
        },
{
    if fee_part == 0 {
        proof {
            assert(old(shares)@ =~= shares@);
        }
        return Ok(());
    }
    let admin_share = match checked_ratio(fee_part, fees.admin_fee_bps as u128, FEE_DIVISOR as u128) {
        Some(v) => v,
        None => {
            return Err(ExchangeError::ArithmeticOverflow);
        },
    };
    distribute_admin_share(shares, total, fees, admin_share)
}

/// The comparable amount of a coin the pool holds `c` of that `shares` of `supply` are
/// worth: `c * shares / supply`, or `None` where there is no supply or it leaves 128 bits.
pub open spec fn share_c_amount(c: nat, shares: nat, supply: nat) -> Option<nat> {
    if supply == 0 || c * shares / supply > u128::MAX {
        None
    } else {
        Some(c * shares / supply)
    }
}

/// What withdrawing `shares` finds wrong with coin `i`, if anything: the amount cannot be
/// computed, the pool would keep less than `MIN_RESERVE`, or the amount is below `mins[i]`.
pub open spec fn by_shares_err_at(p: &StableSwapPool, shares: nat, mins: Seq<u128>, i: int) -> Option<ExchangeError> {
    let c = p.c_amounts@[i] as nat;
    match share_c_amount(c, shares, p.shares_total_supply as nat) {
        None => Some(ExchangeError::ArithmeticOverflow),
        Some(part) => if c < part {
            Some(ExchangeError::ArithmeticOverflow)
        } else if c - part < MIN_RESERVE {
            Some(ExchangeError::MinReserve)
        } else {
            match spec_from_c(part, p.token_decimals@[i] as nat) {
                None => Some(ExchangeError::ArithmeticOverflow),
                Some(a) => if a < mins[i] {
                    Some(ExchangeError::Slippage)
                } else {
                    None
                },
            }
        },
    }
}

/// The first of the coins `0..k` that withdrawing `shares` finds wrong, and what.
pub open spec fn by_shares_scan(p: &StableSwapPool, shares: nat, mins: Seq<u128>, k: nat) -> Option<ExchangeError>
    decreases k,
{
    if k == 0 {
        None
    } else {
        match by_shares_scan(p, shares, mins, (k - 1) as nat) {
            Some(e) => Some(e),
            None => by_shares_err_at(p, shares, mins, k - 1),
        }
    }
}

/// Once a coin is found wrong, the scan reports it however far it goes on.
proof fn lemma_scan_stays(p: &StableSwapPool, shares: nat, mins: Seq<u128>, k: nat, m: nat)
    requires
        k <= m,
    ensures
        by_shares_scan(p, shares, mins, k) is Some ==> by_shares_scan(p, shares, mins, m) == by_shares_scan(p, shares, mins, k),
    decreases m,
{
    if k < m {
        lemma_scan_stays(p, shares, mins, k, (m - 1) as nat);
    }
}

/// The comparable amount of coin `i` paid for `shares`.
pub open spec fn share_part(p: &StableSwapPool, shares: nat, i: int) -> nat {
    share_c_amount(p.c_amounts@[i] as nat, shares, p.shares_total_supply as nat)->0
}

/// The amount of coin `i`, in its own units, paid for `shares`.
pub open spec fn share_payout(p: &StableSwapPool, shares: nat, i: int) -> nat {
    spec_from_c(share_part(p, shares, i), p.token_decimals@[i] as nat)->0
}

/// The ledger after `amount` shares leave `k`, which holds `prev`: the entry stays, even at
/// zero.
pub open spec fn burnt(m: Map<Seq<char>, u128>, k: Seq<char>, prev: nat, amount: nat) -> Map<Seq<char>, u128> {
    if amount == 0 {
        m
    } else {
        m.insert(k, (prev - amount) as u128)
    }
}

/// The pool after `sender` burnt `shares` for its part of every coin, `out` being that part
/// in each token's own units and at least the minimum asked for it.
pub open spec fn stable_removed(p: &StableSwapPool, fp: &StableSwapPool, sender: Seq<char>, shares: nat, mins: Seq<u128>, out: Seq<u128>) -> bool {
    let n = p.c_amounts@.len();
    &&& p.shares@.contains_key(sender)
    &&& p.shares@[sender] >= shares
    &&& shares <= p.shares_total_supply
    &&& mins.len() == n
    &&& by_shares_scan(p, shares, mins, n) is None
    &&& out.len() == n
    &&& forall|i: int| 0 <= i < n ==> #[trigger] out[i] == share_payout(p, shares, i)
    &&& fp.c_amounts@.len() == n
    &&& forall|i: int| 0 <= i < n ==> #[trigger] fp.c_amounts@[i] == p.c_amounts@[i] - share_part(p, shares, i)
    &&& fp.shares@ == burnt(p.shares@, sender, p.shares@[sender] as nat, shares)
    &&& fp.shares_total_supply == p.shares_total_supply - shares
    &&& same_config(p, fp)
}

/// Whether `sender` can burn `shares` of the pool within the minimums `mins`: a minimum for
/// each coin, shares it holds, no coin's part short of its minimum or out of 128 bits, and no
/// more shares than the pool has.
pub open spec fn stable_remove_ok(p: &StableSwapPool, sender: Seq<char>, shares: nat, mins: Seq<u128>) -> bool {
    let n = p.c_amounts@.len();
    &&& mins.len() == p.token_account_ids@.len()
    &&& p.shares@.contains_key(sender)
    &&& p.shares@[sender] >= shares
    &&& by_shares_scan(p, shares, mins, n) is None
    &&& shares <= p.shares_total_supply
}

/// What burning `shares` pays of each coin, in the tokens' own units.
pub open spec fn stable_payouts(p: &StableSwapPool, shares: nat) -> Seq<u128> {
    Seq::new(p.c_amounts@.len(), |i: int| share_payout(p, shares, i) as u128)
}

/// The balance after saturating subtraction.
pub open spec fn sat_sub(a: nat, b: nat) -> nat {
    if a >= b {
        (a - b) as nat
    } else {
        0
    }
}

/// Removing liquidity by tokens: the shares burnt and the part of them the fees took, or
/// what is wrong with the request before any change.
pub open spec fn spec_by_tokens_burn(
    p: &StableSwapPool,
    sender: Seq<char>,
    amounts: Seq<u128>,
    max_burn: nat,
    now: u64,
) -> Result<(nat, nat), ExchangeError> {
    if amounts.len() != p.token_account_ids.len() {
        Err(ExchangeError::TokensCountIllegal)
    } else if !p.shares@.contains_key(sender) {
        Err(ExchangeError::LpNotRegistered)
    } else {
        match spec_c_amounts(amounts, p.token_decimals@) {
            None => Err(ExchangeError::ArithmeticOverflow),
            Some(cs) => if exists|i: int| 0 <= i < cs.len() && #[trigger] sat_sub(p.c_amounts@[i] as nat, cs[i] as nat) < MIN_RESERVE {
                Err(ExchangeError::MinReserve)
            } else {
                match spec_lp_for_withdraw(pool_amp(p, now), cs, p.c_amounts@, p.shares_total_supply as nat, p.total_fee as nat) {
                    None => Err(ExchangeError::LpShareCalcErr),
                    Some(x) => if x.0 > p.shares@[sender] {
                        Err(ExchangeError::InsufficientLpShares)
                    } else if x.0 > max_burn {
                        Err(ExchangeError::Slippage)
                    } else if x.0 > p.shares_total_supply {
                        Err(ExchangeError::ArithmeticOverflow)
                    } else {
                        Ok(x)
                    },
                }
            },
        }
    }
}

/// Removing liquidity by tokens: the new balances, ledger and supply, and the shares burnt.
pub open spec fn spec_remove_by_tokens(
    p: &StableSwapPool,
    sender: Seq<char>,
    amounts: Seq<u128>,
    max_burn: nat,
    fees: AdminFees,
    now: u64,
) -> Result<(Seq<u128>, Map<Seq<char>, u128>, nat, nat), ExchangeError> {
    match spec_by_tokens_burn(p, sender, amounts, max_burn, now) {
        Err(e) => Err(e),
        Ok(x) => {
            let cs = spec_c_amounts(amounts, p.token_decimals@)->0;
            let m1 = burnt(p.shares@, sender, p.shares@[sender] as nat, x.0);
            match spec_fee_part_mint(m1, (p.shares_total_supply - x.0) as nat, fees, x.1) {
                None => Err(ExchangeError::ArithmeticOverflow),
                Some(y) => Ok((subtracted_balances(p.c_amounts@, cs)->0, y.0, y.1, x.0)),
            }
        },
    }
}

/// A deposit of `c` of coin `idx` alone into a pool of `n` coins.
pub open spec fn single_deposit(n: nat, idx: int, c: nat) -> Seq<u128> {
    Seq::new(n, |i: int| if i == idx { c as u128 } else { 0 })
}

/// One conversion of `c` comparable units of coin `o`, already in the pool's keeping, into
/// shares for `k`, fee free; nothing where `c` is zero.
pub open spec fn fee_liq_step(
    amp: Option<nat>,
    cs: Seq<u128>,
    m: Map<Seq<char>, u128>,
    supply: nat,
    o: int,
    k: Seq<char>,
    c: nat,
) -> Result<(Seq<u128>, Map<Seq<char>, u128>, nat), ExchangeError> {
    if c == 0 {
        Ok((cs, m, supply))
    } else {
        match spec_lp_for_deposit(amp, single_deposit(cs.len(), o, c), cs, supply, 0) {
            None => Err(ExchangeError::LpShareCalcErr),
            Some(x) => if !mint_fits(m, supply, k, x.0) {
                Err(ExchangeError::ArithmeticOverflow)
            } else {
                Ok((cs.update(o, (cs[o] + c) as u128), minted(m, k, x.0), supply + x.0))
            },
        }
    }
}

/// The admin fee of a swap, `admin_fee` comparable units of coin `o`, turned into shares: a
/// registered referral's cut first, then the rest for the exchange.
pub open spec fn spec_swap_fees(
    amp: Option<nat>,
    cs: Seq<u128>,
    m: Map<Seq<char>, u128>,
    supply: nat,
    o: int,
    fees: AdminFees,
    admin_fee: nat,
) -> Result<(Seq<u128>, Map<Seq<char>, u128>, nat), ExchangeError> {
    if fees.admin_fee_bps == 0 || admin_fee == 0 {
        Ok((cs, m, supply))
    } else {
        let cut = referral_cut(fees, admin_fee);
        let ref_fee = if cut.0 > 0 && m.contains_key(cut.1) {
            cut.0
        } else {
            0
        };
        if cut.0 > u128::MAX || ref_fee > admin_fee {
            Err(ExchangeError::ArithmeticOverflow)
        } else {
            match fee_liq_step(amp, cs, m, supply, o, cut.1, ref_fee) {
                Err(e) => Err(e),
                Ok(y) => fee_liq_step(amp, y.0, y.1, y.2, o, fees.exchange_id@, (admin_fee - ref_fee) as nat),
            }
        }
    }
}

/// The swap of `amount_in` of coin `i` for coin `o` at time `now`, in comparable units.
pub open spec fn spec_swap_result(p: &StableSwapPool, i: int, amount_in: nat, o: int, fees: AdminFees, now: u64) -> Result<SwapResult, ExchangeError> {
    match spec_to_c(amount_in, p.token_decimals@[i] as nat) {
        None => Err(ExchangeError::ArithmeticOverflow),
        Some(c_in) => match spec_swap_to(pool_amp(p, now), i, c_in, o, p.c_amounts@, p.total_fee as nat, fees.admin_fee_bps as nat) {
            None => Err(ExchangeError::SwapOutCalcErr),
            Some(res) => Ok(res),
        },
    }
}

/// Swapping: the new balances, volumes, ledger and supply, and the amount paid out.
pub open spec fn spec_swap(
    p: &StableSwapPool,
    token_in: Seq<char>,
    amount_in: nat,
    token_out: Seq<char>,
    min_out: nat,
    fees: AdminFees,
    now: u64,
) -> Result<(Seq<u128>, Seq<SwapVolume>, Map<Seq<char>, u128>, nat, nat), ExchangeError> {
    let ids = p.token_account_ids@;
    if token_in == token_out {
        Err(ExchangeError::SwapDupTokens)
    } else if !has_token(ids, token_in) || !has_token(ids, token_out) {
        Err(ExchangeError::MissingToken)
    } else {
        let i = token_pos(ids, token_in);
        let o = token_pos(ids, token_out);
        match spec_swap_result(p, i, amount_in, o, fees, now) {
            Err(e) => Err(e),
            Ok(res) => match spec_from_c(res.amount_swapped as nat, p.token_decimals@[o] as nat) {
                None => Err(ExchangeError::ArithmeticOverflow),
                Some(out) => {
                    let c1 = p.c_amounts@.update(i, res.new_source_amount).update(o, res.new_destination_amount);
                    let vi = p.volumes@[i];
                    let vo = p.volumes@[o];
                    if out < min_out {
                        Err(ExchangeError::Slippage)
                    } else if res.new_destination_amount < MIN_RESERVE {
                        Err(ExchangeError::MinReserve)
                    } else if vi.input + amount_in > u128::MAX || vo.output + out > u128::MAX {
                        Err(ExchangeError::ArithmeticOverflow)
                    } else {
                        let vols = p.volumes@.update(i, SwapVolume { input: (vi.input + amount_in) as u128, output: vi.output }).update(
                            o,
                            SwapVolume { input: vo.input, output: (vo.output + out) as u128 },
                        );
                        match spec_swap_fees(pool_amp(p, now), c1, p.shares@, p.shares_total_supply as nat, o, fees, res.admin_fee as nat) {
                            Err(e) => Err(e),
                            Ok(y) => Ok((y.0, vols, y.1, y.2, out)),
                        }
                    }
                },
            },
        }
    }
}

impl StableSwapPool {
    /// A new empty pool of the given tokens; the pool `id` named its storage.
    pub fn new(
        id: u32,
        token_account_ids: Vec<String>,
        token_decimals: Vec<u8>,
        amp_factor: u128,
        total_fee: u32,
    ) -> (r: Result<StableSwapPool, ExchangeError>)
        requires
            token_decimals.len() == token_account_ids.len(),
        ensures
            !decimals_ok(token_decimals@) ==> r == Err::<StableSwapPool, ExchangeError>(ExchangeError::DecimalIllegal),
            decimals_ok(token_decimals@) && !(MIN_AMP <= amp_factor <= MAX_AMP) ==> r == Err::<StableSwapPool, ExchangeError>(ExchangeError::AmpIllegal),
            decimals_ok(token_decimals@) && MIN_AMP <= amp_factor <= MAX_AMP && total_fee >= FEE_DIVISOR ==> r == Err::<StableSwapPool, ExchangeError>(ExchangeError::FeeIllegal),
            r is Ok <==> decimals_ok(token_decimals@) && MIN_AMP <= amp_factor <= MAX_AMP && total_fee < FEE_DIVISOR,
            r matches Ok(p) ==> {
                &&& stable_pool_wf(&p)
                &&& p.token_account_ids@ == token_account_ids@
                &&& p.token_decimals@ == token_decimals@
                &&& forall|i: int| 0 <= i < p.c_amounts@.len() ==> p.c_amounts@[i] == 0
                &&& forall|i: int| 0 <= i < p.volumes@.len() ==> p.volumes@[i] == (SwapVolume { input: 0, output: 0 })
                &&& p.total_fee == total_fee
                &&& p.shares@ == Map::<Seq<char>, u128>::empty()
                &&& p.shares_total_supply == 0
                &&& p.init_amp_factor == amp_factor
                &&& p.target_amp_factor == amp_factor
                &&& p.init_amp_time == 0
                &&& p.stop_amp_time == 0
            },
    {
        let n = token_decimals.len();
        let mut i: usize = 0;
        while i < n
            invariant
                n == token_decimals.len(),
                i <= n,
                forall|j: int| 0 <= j < i ==> MIN_DECIMAL <= #[trigger] token_decimals@[j] <= MAX_DECIMAL,
            decreases n - i,
        {
            if token_decimals[i] > MAX_DECIMAL || token_decimals[i] < MIN_DECIMAL {
                return Err(ExchangeError::DecimalIllegal);
            }
            i = i + 1;
        }
        if !(amp_factor >= MIN_AMP && amp_factor <= MAX_AMP) {
            return Err(ExchangeError::AmpIllegal);
        }
        if total_fee >= FEE_DIVISOR {
            return Err(ExchangeError::FeeIllegal);
        }
        let mut c_amounts: Vec<u128> = Vec::new();
        let mut volumes: Vec<SwapVolume> = Vec::new();
        let mut i: usize = 0;
        while i < n
            invariant
                i <= n,
                c_amounts.len() == i,
                volumes.len() == i,
                forall|j: int| 0 <= j < i ==> c_amounts@[j] == 0,
                forall|j: int| 0 <= j < i ==> volumes@[j] == (SwapVolume { input: 0, output: 0 }),
            decreases n - i,
        {
            c_amounts.push(0);
            volumes.push(SwapVolume::default_volume());
            i = i + 1;
        }
        Ok(
            StableSwapPool {
                token_account_ids,
                token_decimals,
                c_amounts,
                volumes,
                total_fee,
                shares: StringHashMap::new(),
                shares_total_supply: 0,
                init_amp_factor: amp_factor,
                target_amp_factor: amp_factor,
                init_amp_time: 0,
                stop_amp_time: 0,
            },
        )
    }

    /// The pool's balances in each token's own units.
    pub fn get_amounts(&self) -> (r: Result<Vec<u128>, ExchangeError>)
        requires
            stable_pool_wf(self),
        ensures
            match spec_amounts(self.c_amounts@, self.token_decimals@) {
                Some(a) => r matches Ok(v) && v@ == a,
                None => r == Err::<Vec<u128>, ExchangeError>(ExchangeError::ArithmeticOverflow),
            },
    {
        let n = self.c_amounts.len();
        let mut out: Vec<u128> = Vec::new();
        let mut i: usize = 0;
        while i < n
            invariant
                stable_pool_wf(self),
                n == self.c_amounts.len(),
                i <= n,
                out.len() == i,
                forall|j: int| 0 <= j < i ==> #[trigger] spec_from_c(self.c_amounts@[j] as nat, self.token_decimals@[j] as nat) == Some(out@[j] as nat),
            decreases n - i,
        {
            let v = from_c(self.c_amounts[i], self.token_decimals[i])?;
            out.push(v);
            i = i + 1;
        }
        assert(out@ =~= spec_amounts(self.c_amounts@, self.token_decimals@)->0);
        Ok(out)
    }

    /// Every amount in comparable units.
    fn amounts_to_c_amounts(&self, amounts: &Vec<u128>) -> (r: Result<Vec<u128>, ExchangeError>)
        requires
            stable_pool_wf(self),
            amounts.len() == self.token_account_ids.len(),
        ensures
            match spec_c_amounts(amounts@, self.token_decimals@) {
                Some(cs) => r matches Ok(v) && v@ == cs,
                None => r == Err::<Vec<u128>, ExchangeError>(ExchangeError::ArithmeticOverflow),
            },
    {
        let n = amounts.len();
        let mut out: Vec<u128> = Vec::new();
        let mut i: usize = 0;
        while i < n
            invariant
                stable_pool_wf(self),
                n == amounts.len(),
                n == self.token_decimals.len(),
                i <= n,
                out.len() == i,
                forall|j: int| 0 <= j < i ==> #[trigger] spec_to_c(amounts@[j] as nat, self.token_decimals@[j] as nat) == Some(out@[j] as nat),
            decreases n - i,
        {
            let v = to_c(amounts[i], self.token_decimals[i])?;
            out.push(v);
            i = i + 1;
        }
        assert(out@ =~= spec_c_amounts(amounts@, self.token_decimals@)->0);
        Ok(out)
    }

    /// The stable swap calculator for the pool's amplification at time `now`.
    fn get_invariant(&self, now: u64) -> (r: StableSwap)
        ensures
            r.spec_amp() == pool_amp(self, now),
    {
        StableSwap::new(self.init_amp_factor, self.target_amp_factor, now, self.init_amp_time, self.stop_amp_time)
    }

    /// The amplification coefficient at time `now`, or zero where it cannot be computed.
    pub fn get_amp(&self, now: u64) -> (r: u64)
        requires
            stable_pool_wf(self),
        ensures
            match pool_amp(self, now) {
                Some(a) => r == a,
                None => r == 0,
            },
    {
        match self.get_invariant(now).compute_amp_factor() {
            Some(amp) => {
                proof {
                    lemma_amp_between(self.init_amp_factor as nat, self.target_amp_factor as nat, now as nat, self.init_amp_time as nat, self.stop_amp_time as nat);
                }
                amp as u64
            },
            None => 0,
        }
    }

    /// Returns token index for given token account_id.
    fn token_index(&self, token_id: &String) -> (r: Result<usize, ExchangeError>)
        ensures
            match r {
                Ok(i) => is_first_index(self.token_account_ids@, token_id@, i as int) && token_pos(self.token_account_ids@, token_id@) == i,
                Err(e) => !has_token(self.token_account_ids@, token_id@) && e == ExchangeError::MissingToken,
            },
    {
        match find_token(&self.token_account_ids, token_id) {
            Some(i) => Ok(i),
            None => Err(ExchangeError::MissingToken),
        }
    }

    /// Returns given pool's total fee.
    pub fn get_fee(&self) -> (r: u32)
        ensures
            r == self.total_fee,
    {
        self.total_fee
    }

    /// Returns volumes of the given pool.
    pub fn get_volumes(&self) -> (r: Vec<SwapVolume>)
        ensures
            r@ == self.volumes@,
    {
        self.volumes.clone()
    }

    /// Price of one share with 1e8 precision: the sum of the comparable balances times 1e8
    /// over the supply, or 1e8 where there are no shares.
    pub fn get_share_price(&self) -> (r: Result<u128, ExchangeError>)
        ensures
            sum_seq(self.c_amounts@) > u128::MAX ==> r == Err::<u128, ExchangeError>(ExchangeError::ArithmeticOverflow),
            sum_seq(self.c_amounts@) <= u128::MAX && self.shares_total_supply == 0 ==> r == Ok::<u128, ExchangeError>(100_000_000),
            sum_seq(self.c_amounts@) <= u128::MAX && self.shares_total_supply > 0 ==> {
                let price = sum_seq(self.c_amounts@) * 100_000_000 / (self.shares_total_supply as nat);
                &&& price <= u128::MAX ==> r == Ok::<u128, ExchangeError>(price as u128)
                &&& price > u128::MAX ==> r == Err::<u128, ExchangeError>(ExchangeError::ArithmeticOverflow)
            },
    {
        let sum_token = match sum_amounts(&self.c_amounts) {
            Some(v) => v,
            None => {
                return Err(ExchangeError::ArithmeticOverflow);
            },
        };
        proof {
            assert(sum_token as nat * 100_000_000 <= u128::MAX * 100_000_000) by (nonlinear_arith)
                requires
                    sum_token <= u128::MAX,
            ;
            assert(u128::MAX * 100_000_000 <= u256_max()) by (nonlinear_arith);
        }
        let p = U256::from_u128(sum_token).mul(&U256::from_u128(100_000_000));
        match p.checked_div(&U256::from_u128(self.shares_total_supply)) {
            Some(q) => match q.to_u128() {
                Some(v) => Ok(v),
                None => Err(ExchangeError::ArithmeticOverflow),
            },
            None => Ok(100_000_000),
        }
    }

    /// Register given account with 0 balance in shares.
    /// Storage payment should be checked by caller.
    pub fn share_register(&mut self, account_id: &String) -> (r: Result<(), ExchangeError>)
        ensures
            old(self).shares@.contains_key(account_id@) ==> r == Err::<(), ExchangeError>(ExchangeError::LpAlreadyRegistered) && final(self).shares@ == old(self).shares@,
            !old(self).shares@.contains_key(account_id@) ==> r is Ok && final(self).shares@ == old(self).shares@.insert(account_id@, 0),
            same_but_shares(old(self), final(self)),
    {
        share_register(&mut self.shares, account_id)
    }

    /// Transfers shares from sender to receiver.
    pub fn share_transfer(&mut self, sender_id: &String, receiver_id: &String, amount: u128) -> (r: Result<(), ExchangeError>)
        ensures
            !old(self).shares@.contains_key(sender_id@) ==> r == Err::<(), ExchangeError>(ExchangeError::LpNotRegistered),
            old(self).shares@.contains_key(sender_id@) && old(self).shares@[sender_id@] < amount ==> r == Err::<(), ExchangeError>(ExchangeError::InsufficientLpShares),
            old(self).shares@.contains_key(sender_id@) && old(self).shares@[sender_id@] >= amount && !old(self).shares@.contains_key(receiver_id@) ==> r == Err::<(), ExchangeError>(ExchangeError::LpNotRegistered),
            r is Ok <==> old(self).shares@.contains_key(sender_id@) && old(self).shares@[sender_id@] >= amount && old(self).shares@.contains_key(receiver_id@) && (sender_id@ == receiver_id@ || old(self).shares@[receiver_id@] + amount <= u128::MAX),
            r is Ok ==> final(self).shares@ == transferred(old(self).shares@, sender_id@, receiver_id@, amount as nat),
            r is Err ==> final(self).shares@ == old(self).shares@,
            same_but_shares(old(self), final(self)),
    {
        share_transfer(&mut self.shares, sender_id, receiver_id, amount, ExchangeError::LpNotRegistered, ExchangeError::InsufficientLpShares)
    }

    /// Returns balance of shares for given user.
    pub fn share_balance_of(&self, account_id: &String) -> (r: u128)
        ensures
            r == balance_in(self.shares@, account_id@),
    {
        match self.shares.get(account_id.as_str()) {
            Some(v) => *v,
            None => 0,
        }
    }

    /// Returns total number of shares in this pool.
    pub fn share_total_balance(&self) -> (r: u128)
        ensures
            r == self.shares_total_supply,
    {
        self.shares_total_supply
    }

    /// Returns list of tokens in this pool.
    pub fn tokens(&self) -> (r: &Vec<String>)
        ensures
            r@ == self.token_account_ids@,
    {
        &self.token_account_ids
    }

    /// The shares a deposit of `amounts` mints, and the part of them the fees took.
    fn calc_add_liquidity(&self, amounts: &Vec<u128>, fees: &AdminFees, now: u64) -> (r: Result<(u128, u128), ExchangeError>)
        requires
            stable_pool_wf(self),
            amounts.len() == self.token_account_ids.len(),
        ensures
            match r {
                Ok(x) => spec_calc_add(self, amounts@, now) == Ok::<(nat, nat), ExchangeError>((x.0 as nat, x.1 as nat)),
                Err(e) => spec_calc_add(self, amounts@, now) == Err::<(nat, nat), ExchangeError>(e),
            },
    {
        let calc = self.get_invariant(now);
        let c_amounts = self.amounts_to_c_amounts(amounts)?;
        if self.shares_total_supply == 0 {
            // Bootstrapping the pool, request providing all non-zero balances,
            // and all fee free.
            let mut i: usize = 0;
            while i < c_amounts.len()
                invariant
                    i <= c_amounts.len(),
                    forall|j: int| 0 <= j < i ==> #[trigger] c_amounts@[j] != 0,
                    self.shares_total_supply == 0,
                    spec_c_amounts(amounts@, self.token_decimals@) == Some(c_amounts@),
                decreases c_amounts.len() - i,
            {
                if c_amounts[i] == 0 {
                    assert(c_amounts@[i as int] == 0);
                    return Err(ExchangeError::InitTokenBalance);
                }
                i = i + 1;
            }
            let d = match calc.compute_d_ex(&c_amounts) {
                Some(v) => v,
                None => {
                    return Err(ExchangeError::InvariantCalcErr);
                },
            };
            match d.to_u128() {
                Some(v) => Ok((v, 0)),
                None => Err(ExchangeError::ArithmeticOverflow),
            }
        } else {
            // Subsequent add liquidity will charge fee according to difference with ideal balance portions
            match calc.compute_lp_amount_for_deposit_ex(&c_amounts, &self.c_amounts, self.shares_total_supply, &Fees::new(self.total_fee, fees)) {
                Some(x) => Ok(x),
                None => Err(ExchangeError::LpShareCalcErr),
            }
        }
    }

    /// The shares that adding `amounts` would mint now.
    pub fn predict_add_stable_liquidity(&self, amounts: &Vec<u128>, fees: &AdminFees, now: u64) -> (r: Result<u128, ExchangeError>)
        requires
            stable_pool_wf(self),
        ensures
            amounts.len() != self.token_account_ids.len() ==> r == Err::<u128, ExchangeError>(ExchangeError::TokensCountIllegal),
            amounts.len() == self.token_account_ids.len() ==> match spec_calc_add(self, amounts@, now) {
                Ok(x) => r == Ok::<u128, ExchangeError>(x.0 as u128),
                Err(e) => r == Err::<u128, ExchangeError>(e),
            },
    {
        if amounts.len() != self.token_account_ids.len() {
            return Err(ExchangeError::TokensCountIllegal);
        }
        let (new_shares, _) = self.calc_add_liquidity(amounts, fees, now)?;
        Ok(new_shares)
    }

    /// Add liquidity into the pool.
    /// Allows to add liquidity of a subset of tokens,
    /// by set other tokens balance into 0.
    ///
    /// The sender receives the shares minted; the admin's part of the fee shares goes to the
    /// exchange and a registered referral.
    pub fn add_liquidity(
        &mut self,
        sender_id: &String,
        amounts: &Vec<u128>,
        min_shares: u128,
        fees: &AdminFees,
        now: u64,
    ) -> (r: Result<u128, ExchangeError>)
        requires
            stable_pool_wf(old(self)),
        ensures
            stable_pool_wf(final(self)),
            match spec_add_liquidity(old(self), sender_id@, amounts@, min_shares as nat, *fees, now) {
                Ok(t) => {
                    &&& r == Ok::<u128, ExchangeError>(t.3 as u128)
                    &&& final(self).c_amounts@ == t.0
                    &&& final(self).shares@ == t.1
                    &&& final(self).shares_total_supply == t.2
                    &&& same_config(old(self), final(self))
                },
                Err(e) => r == Err::<u128, ExchangeError>(e) && same_stable(old(self), final(self)),
            },
    {
        let n = self.token_account_ids.len();
        if amounts.len() != n {
            return Err(ExchangeError::TokensCountIllegal);
        }
        let (new_shares, fee_part) = self.calc_add_liquidity(amounts, fees, now)?;
        //slippage check on the LP tokens.
        if new_shares < min_shares {
            return Err(ExchangeError::Slippage);
        }
        let cs = self.amounts_to_c_amounts(amounts)?;
        let mut newc: Vec<u128> = Vec::new();
        let mut i: usize = 0;
        while i < n
            invariant
                stable_pool_wf(self),
                *self == *old(self),
                n == self.c_amounts.len(),
                n == cs.len(),
                n == amounts.len(),
                cs@ == spec_c_amounts(amounts@, self.token_decimals@)->0,
                spec_calc_add(self, amounts@, now) == Ok::<(nat, nat), ExchangeError>((new_shares as nat, fee_part as nat)),
                new_shares >= min_shares,
                i <= n,
                newc.len() == i,
                forall|j: int| 0 <= j < i ==> #[trigger] newc@[j] == self.c_amounts@[j] + cs@[j],
            decreases n - i,
        {
            if self.c_amounts[i] > u128::MAX - cs[i] {
                proof {
                    assert(self.c_amounts@[i as int] + cs@[i as int] > u128::MAX);
                }
                return Err(ExchangeError::ArithmeticOverflow);
            }
            newc.push(self.c_amounts[i] + cs[i]);
            i = i + 1;
        }
        assert(added_balances(self.c_amounts@, cs@) == Some(newc@)) by {
            assert forall|j: int| 0 <= j < n implies self.c_amounts@[j] + cs@[j] <= u128::MAX by {
                assert(newc@[j] == self.c_amounts@[j] + cs@[j]);
            }
            assert(newc@ =~= Seq::new(n as nat, |j: int| (self.c_amounts@[j] + cs@[j]) as u128));
        }
        let prev = match self.shares.get(sender_id.as_str()) {
            Some(v) => Some(*v),
            None => None,
        };
        let bal = match prev {
            Some(v) => v,
            None => 0,
        };
        if self.shares_total_supply > u128::MAX - new_shares || bal > u128::MAX - new_shares {
            return Err(ExchangeError::ArithmeticOverflow);
        }
        let ghost p0 = *self;
        let old_c = self.c_amounts.clone();
        self.c_amounts = newc;
        mint_shares(&mut self.shares, &mut self.shares_total_supply, sender_id, new_shares);
        match distribute_fee_part(&mut self.shares, &mut self.shares_total_supply, fees, fee_part) {
            Ok(()) => Ok(new_shares),
            Err(e) => {
                // put the pool back as it was
                self.c_amounts = old_c;
                if new_shares > 0 {
                    restore_balance(&mut self.shares, sender_id, prev);
                    self.shares_total_supply = self.shares_total_supply - new_shares;
                }
                proof {
                    assert(self.shares@ =~= p0.shares@);
                }
                Err(e)
            },
        }
    }

    /// The comparable amount of coin `i` that `shares` are worth.
    fn share_c(&self, i: usize, shares: u128) -> (r: Option<u128>)
        requires
            i < self.c_amounts.len(),
        ensures
            match r {
                Some(v) => share_c_amount(self.c_amounts@[i as int] as nat, shares as nat, self.shares_total_supply as nat) == Some(v as nat),
                None => share_c_amount(self.c_amounts@[i as int] as nat, shares as nat, self.shares_total_supply as nat) is None,
            },
    {
        if self.shares_total_supply == 0 {
            return None;
        }
        checked_ratio(self.c_amounts[i], shares, self.shares_total_supply)
    }

    /// What withdrawing `shares` would pay out in each token, in its own units.
    pub fn predict_remove_liquidity(&self, shares: u128) -> (r: Result<Vec<u128>, ExchangeError>)
        requires
            stable_pool_wf(self),
        ensures
            (forall|i: int| 0 <= i < self.c_amounts@.len() ==> #[trigger] share_c_amount(self.c_amounts@[i] as nat, shares as nat, self.shares_total_supply as nat) is Some && spec_from_c(share_part(self, shares as nat, i), self.token_decimals@[i] as nat) is Some)
                ==> (r matches Ok(v) && v@.len() == self.c_amounts@.len() && forall|i: int| 0 <= i < v@.len() ==> #[trigger] v@[i] == share_payout(self, shares as nat, i)),
            r is Err ==> r == Err::<Vec<u128>, ExchangeError>(ExchangeError::ArithmeticOverflow),
    {
        let n = self.c_amounts.len();
        let mut result: Vec<u128> = Vec::new();
        let mut i: usize = 0;
        while i < n
            invariant
                stable_pool_wf(self),
                n == self.c_amounts.len(),
                i <= n,
                result.len() == i,
                forall|j: int| 0 <= j < i ==> #[trigger] result@[j] == share_payout(self, shares as nat, j),
            decreases n - i,
        {
            let part = match self.share_c(i, shares) {
                Some(v) => v,
                None => {
                    return Err(ExchangeError::ArithmeticOverflow);
                },
            };
            let amount = from_c(part, self.token_decimals[i])?;
            result.push(amount);
            i = i + 1;
        }
        Ok(result)
    }

    /// balanced removal of liquidity would be free of charge.
    ///
    /// Pays `c[i] * shares / supply` of each coin, in its own units; every coin must keep
    /// `MIN_RESERVE` and pay at least `min_amounts[i]`.
    pub fn remove_liquidity_by_shares(
        &mut self,
        sender_id: &String,
        shares: u128,
        min_amounts: Vec<u128>,
    ) -> (r: Result<Vec<u128>, ExchangeError>)
        requires
            stable_pool_wf(old(self)),
        ensures
            stable_pool_wf(final(self)),
            min_amounts.len() != old(self).token_account_ids.len() ==> r == Err::<Vec<u128>, ExchangeError>(ExchangeError::TokensCountIllegal),
            min_amounts.len() == old(self).token_account_ids.len() && !old(self).shares@.contains_key(sender_id@) ==> r == Err::<Vec<u128>, ExchangeError>(ExchangeError::LpNotRegistered),
            min_amounts.len() == old(self).token_account_ids.len() && old(self).shares@.contains_key(sender_id@) ==> {
                let n = old(self).c_amounts@.len();
                let prev = old(self).shares@[sender_id@];
                if prev < shares {
                    r == Err::<Vec<u128>, ExchangeError>(ExchangeError::InsufficientLpShares)
                } else if by_shares_scan(old(self), shares as nat, min_amounts@, n) is Some {
                    r == Err::<Vec<u128>, ExchangeError>(by_shares_scan(old(self), shares as nat, min_amounts@, n)->0)
                } else if shares > old(self).shares_total_supply {
                    r == Err::<Vec<u128>, ExchangeError>(ExchangeError::ArithmeticOverflow)
                } else {
                    &&& (r matches Ok(out) && out@.len() == n && forall|i: int| 0 <= i < n ==> #[trigger] out@[i] == share_payout(old(self), shares as nat, i))
                    &&& final(self).c_amounts@.len() == n
                    &&& forall|i: int| 0 <= i < n ==> #[trigger] final(self).c_amounts@[i] == old(self).c_amounts@[i] - share_part(old(self), shares as nat, i)
                    &&& final(self).shares@ == burnt(old(self).shares@, sender_id@, prev as nat, shares as nat)
                    &&& final(self).shares_total_supply == old(self).shares_total_supply - shares
                    &&& same_config(old(self), final(self))
                }
            },
            r is Err ==> same_stable(old(self), final(self)),
            r matches Ok(out) ==> stable_removed(old(self), final(self), sender_id@, shares as nat, min_amounts@, out@),
    {
        let n = self.token_account_ids.len();
        if min_amounts.len() != n {
            return Err(ExchangeError::TokensCountIllegal);
        }
        let prev_shares_amount = match self.shares.get(sender_id.as_str()) {
            Some(v) => *v,
            None => {
                return Err(ExchangeError::LpNotRegistered);
            },
        };
        if prev_shares_amount < shares {
            return Err(ExchangeError::InsufficientLpShares);
        }
        let mut result: Vec<u128> = Vec::new();
        let mut newc: Vec<u128> = Vec::new();
        let mut i: usize = 0;
        while i < n
            invariant
                stable_pool_wf(self),
                *self == *old(self),
                n == self.c_amounts.len(),
                n == min_amounts.len(),
                i <= n,
                result.len() == i,
                newc.len() == i,
                by_shares_scan(self, shares as nat, min_amounts@, i as nat) is None,
                self.shares@.contains_key(sender_id@),
                self.shares@[sender_id@] == prev_shares_amount,
                prev_shares_amount >= shares,
                forall|j: int| 0 <= j < i ==> #[trigger] result@[j] == share_payout(self, shares as nat, j),
                forall|j: int| 0 <= j < i ==> #[trigger] newc@[j] == self.c_amounts@[j] - share_part(self, shares as nat, j),
            decreases n - i,
        {
            proof {
                lemma_scan_stays(self, shares as nat, min_amounts@, (i + 1) as nat, n as nat);
            }
            let part = match self.share_c(i, shares) {
                Some(v) => v,
                None => {
                    return Err(ExchangeError::ArithmeticOverflow);
                },
            };
            if self.c_amounts[i] < part {
                return Err(ExchangeError::ArithmeticOverflow);
            }
            let left = self.c_amounts[i] - part;
            if left < MIN_RESERVE {
                return Err(ExchangeError::MinReserve);
            }
            let amount = from_c(part, self.token_decimals[i])?;
            if amount < min_amounts[i] {
                return Err(ExchangeError::Slippage);
            }
            result.push(amount);
            newc.push(left);
            i = i + 1;
        }
        if shares > self.shares_total_supply {
            return Err(ExchangeError::ArithmeticOverflow);
        }
        self.c_amounts = newc;
        if shares > 0 {
            // Never remove shares from storage to allow to bring it back without extra storage deposit.
            self.shares_total_supply = self.shares_total_supply - shares;
            self.shares.insert(sender_id.clone(), prev_shares_amount - shares);
        }
        Ok(result)
    }

    /// The shares that withdrawing `amounts` would burn now.
    pub fn predict_remove_liquidity_by_tokens(&self, amounts: &Vec<u128>, fees: &AdminFees, now: u64) -> (r: Result<u128, ExchangeError>)
        requires
            stable_pool_wf(self),
        ensures
            amounts.len() != self.token_account_ids.len() ==> r == Err::<u128, ExchangeError>(ExchangeError::TokensCountIllegal),
            amounts.len() == self.token_account_ids.len() ==> match spec_c_amounts(amounts@, self.token_decimals@) {
                None => r == Err::<u128, ExchangeError>(ExchangeError::ArithmeticOverflow),
                Some(cs) => if exists|i: int| 0 <= i < cs.len() && #[trigger] sat_sub(self.c_amounts@[i] as nat, cs[i] as nat) < MIN_RESERVE {
                    r == Err::<u128, ExchangeError>(ExchangeError::MinReserve)
                } else {
                    match spec_lp_for_withdraw(pool_amp(self, now), cs, self.c_amounts@, self.shares_total_supply as nat, self.total_fee as nat) {
                        None => r == Err::<u128, ExchangeError>(ExchangeError::LpShareCalcErr),
                        Some(x) => r == Ok::<u128, ExchangeError>(x.0 as u128),
                    }
                },
            },
    {
        let n = self.token_account_ids.len();
        if amounts.len() != n {
            return Err(ExchangeError::TokensCountIllegal);
        }
        let c_amounts = self.amounts_to_c_amounts(amounts)?;
        self.check_reserves_after(&c_amounts)?;
        let calc = self.get_invariant(now);
        match calc.compute_lp_amount_for_withdraw(&c_amounts, &self.c_amounts, self.shares_total_supply, &Fees::new(self.total_fee, fees)) {
            Some(x) => Ok(x.0),
            None => Err(ExchangeError::LpShareCalcErr),
        }
    }

    /// Whether every coin keeps `MIN_RESERVE` after withdrawing `cs` (saturating at zero).
    fn check_reserves_after(&self, cs: &Vec<u128>) -> (r: Result<(), ExchangeError>)
        requires
            cs.len() == self.c_amounts.len(),
        ensures
            r is Ok <==> !exists|i: int| 0 <= i < cs@.len() && #[trigger] sat_sub(self.c_amounts@[i] as nat, cs@[i] as nat) < MIN_RESERVE,
            r is Err ==> r == Err::<(), ExchangeError>(ExchangeError::MinReserve),
    {
        let mut i: usize = 0;
        while i < cs.len()
            invariant
                cs.len() == self.c_amounts.len(),
                i <= cs.len(),
                forall|j: int| 0 <= j < i ==> #[trigger] sat_sub(self.c_amounts@[j] as nat, cs@[j] as nat) >= MIN_RESERVE,
            decreases cs.len() - i,
        {
            let left = if self.c_amounts[i] >= cs[i] {
                self.c_amounts[i] - cs[i]
            } else {
                0
            };
            if left < MIN_RESERVE {
                assert(sat_sub(self.c_amounts@[i as int] as nat, cs@[i as int] as nat) < MIN_RESERVE);
                return Err(ExchangeError::MinReserve);
            }
            i = i + 1;
        }
        Ok(())
    }

    /// Remove liquidity from the pool by fixed tokens-out,
    /// allows to remove liquidity of a subset of tokens, by providing 0 in `amounts`.
    /// Fee will be charged according to diff between ideal token portions.
    pub fn remove_liquidity_by_tokens(
        &mut self,
        sender_id: &String,
        amounts: Vec<u128>,
        max_burn_shares: u128,
        fees: &AdminFees,
        now: u64,
    ) -> (r: Result<u128, ExchangeError>)
        requires
            stable_pool_wf(old(self)),
        ensures
            stable_pool_wf(final(self)),
            match spec_remove_by_tokens(old(self), sender_id@, amounts@, max_burn_shares as nat, *fees, now) {
                Ok(t) => {
                    &&& r == Ok::<u128, ExchangeError>(t.3 as u128)
                    &&& final(self).c_amounts@ == t.0
                    &&& final(self).shares@ == t.1
                    &&& final(self).shares_total_supply == t.2
                    &&& same_config(old(self), final(self))
                },
                Err(e) => r == Err::<u128, ExchangeError>(e) && same_stable(old(self), final(self)),
            },
    {
        let n = self.token_account_ids.len();
        if amounts.len() != n {
            return Err(ExchangeError::TokensCountIllegal);
        }
        let prev_shares_amount = match self.shares.get(sender_id.as_str()) {
            Some(v) => *v,
            None => {
                return Err(ExchangeError::LpNotRegistered);
            },
        };
        // make amounts into comparable-amounts
        let c_amounts = self.amounts_to_c_amounts(&amounts)?;
        self.check_reserves_after(&c_amounts)?;
        let calc = self.get_invariant(now);
        let (burn_shares, fee_part) = match calc.compute_lp_amount_for_withdraw(&c_amounts, &self.c_amounts, self.shares_total_supply, &Fees::new(self.total_fee, fees)) {
            Some(x) => x,
            None => {
                return Err(ExchangeError::LpShareCalcErr);
            },
        };
        if burn_shares > prev_shares_amount {
            return Err(ExchangeError::InsufficientLpShares);
        }
        if burn_shares > max_burn_shares {
            return Err(ExchangeError::Slippage);
        }
        if burn_shares > self.shares_total_supply {
            return Err(ExchangeError::ArithmeticOverflow);
        }
        let mut newc: Vec<u128> = Vec::new();
        let mut i: usize = 0;
        while i < n
            invariant
                *self == *old(self),
                n == self.c_amounts.len(),
                n == c_amounts.len(),
                i <= n,
                newc.len() == i,
                forall|j: int| 0 <= j < n ==> #[trigger] sat_sub(self.c_amounts@[j] as nat, c_amounts@[j] as nat) >= MIN_RESERVE,
                forall|j: int| 0 <= j < i ==> #[trigger] newc@[j] == self.c_amounts@[j] - c_amounts@[j],
            decreases n - i,
        {
            assert(sat_sub(self.c_amounts@[i as int] as nat, c_amounts@[i as int] as nat) >= MIN_RESERVE);
            newc.push(self.c_amounts[i] - c_amounts[i]);
            i = i + 1;
        }
        assert(subtracted_balances(self.c_amounts@, c_amounts@) == Some(newc@)) by {
            assert forall|j: int| 0 <= j < n implies self.c_amounts@[j] >= c_amounts@[j] by {
                assert(sat_sub(self.c_amounts@[j] as nat, c_amounts@[j] as nat) >= MIN_RESERVE);
            }
            assert(newc@ =~= Seq::new(n as nat, |j: int| (self.c_amounts@[j] - c_amounts@[j]) as u128));
        }
        let ghost p0 = *self;
        let old_c = self.c_amounts.clone();
        self.c_amounts = newc;
        if burn_shares > 0 {
            self.shares_total_supply = self.shares_total_supply - burn_shares;
            self.shares.insert(sender_id.clone(), prev_shares_amount - burn_shares);
        }
        match distribute_fee_part(&mut self.shares, &mut self.shares_total_supply, fees, fee_part) {
            Ok(()) => Ok(burn_shares),
            Err(e) => {
                // put the pool back as it was
                self.c_amounts = old_c;
                if burn_shares > 0 {
                    self.shares.insert(sender_id.clone(), prev_shares_amount);
                    self.shares_total_supply = self.shares_total_supply + burn_shares;
                }
                proof {
                    assert(self.shares@ =~= p0.shares@);
                }
                Err(e)
            },
        }
    }

    /// Shares minted, fee free, for `c` comparable units of coin `o` added to a pool holding
    /// `cs` with `supply` shares.
    fn fee_liquidity_shares(calc: &StableSwap, cs: &Vec<u128>, supply: u128, o: usize, c: u128) -> (r: Result<u128, ExchangeError>)
        requires
            o < cs.len(),
        ensures
            match r {
                Ok(v) => spec_lp_for_deposit(calc.spec_amp(), single_deposit(cs@.len(), o as int, c as nat), cs@, supply as nat, 0) matches Some(x) && x.0 == v,
                Err(e) => e == ExchangeError::LpShareCalcErr && spec_lp_for_deposit(calc.spec_amp(), single_deposit(cs@.len(), o as int, c as nat), cs@, supply as nat, 0) is None,
            },
    {
        let n = cs.len();
        let mut dep: Vec<u128> = Vec::new();
        let mut i: usize = 0;
        while i < n
            invariant
                n == cs.len(),
                o < n,
                i <= n,
                dep.len() == i,
                forall|j: int| 0 <= j < i ==> #[trigger] dep@[j] == (if j == o { c } else { 0 }),
            decreases n - i,
        {
            if i == o {
                dep.push(c);
            } else {
                dep.push(0);
            }
            i = i + 1;
        }
        assert(dep@ =~= single_deposit(n as nat, o as int, c as nat));
        let zero = Fees::zero();
        match calc.compute_lp_amount_for_deposit_ex(&dep, cs, supply, &zero) {
            Some(x) => Ok(x.0),
            None => Err(ExchangeError::LpShareCalcErr),
        }
    }

    /// The swap of `amount_in` of coin `token_in` for coin `token_out`, in comparable units.
    fn internal_get_return(&self, token_in: usize, amount_in: u128, token_out: usize, fees: &AdminFees, now: u64) -> (r: Result<SwapResult, ExchangeError>)
        requires
            stable_pool_wf(self),
            token_in < self.c_amounts.len(),
            token_out < self.c_amounts.len(),
        ensures
            match spec_swap_result(self, token_in as int, amount_in as nat, token_out as int, *fees, now) {
                Ok(res) => r == Ok::<SwapResult, ExchangeError>(res),
                Err(e) => r == Err::<SwapResult, ExchangeError>(e),
            },
    {
        // make amounts into comparable-amounts
        let c_amount_in = to_c(amount_in, self.token_decimals[token_in])?;
        match self.get_invariant(now).swap_to_ex(token_in, c_amount_in, token_out, &self.c_amounts, &Fees::new(self.total_fee, fees)) {
            Some(res) => Ok(res),
            None => Err(ExchangeError::SwapOutCalcErr),
        }
    }

    /// Returns how much token you will receive if swap `token_amount_in` of `token_in` for `token_out`.
    pub fn get_return(&self, token_in: &String, amount_in: u128, token_out: &String, fees: &AdminFees, now: u64) -> (r: Result<u128, ExchangeError>)
        requires
            stable_pool_wf(self),
        ensures
            token_in@ == token_out@ ==> r == Err::<u128, ExchangeError>(ExchangeError::SwapDupTokens),
            token_in@ != token_out@ && (!has_token(self.token_account_ids@, token_in@) || !has_token(self.token_account_ids@, token_out@)) ==> r == Err::<u128, ExchangeError>(ExchangeError::MissingToken),
            token_in@ != token_out@ && has_token(self.token_account_ids@, token_in@) && has_token(self.token_account_ids@, token_out@) ==> {
                let i = token_pos(self.token_account_ids@, token_in@);
                let o = token_pos(self.token_account_ids@, token_out@);
                match spec_swap_result(self, i, amount_in as nat, o, *fees, now) {
                    Err(e) => r == Err::<u128, ExchangeError>(e),
                    Ok(res) => match spec_from_c(res.amount_swapped as nat, self.token_decimals@[o] as nat) {
                        Some(out) => r == Ok::<u128, ExchangeError>(out as u128),
                        None => r == Err::<u128, ExchangeError>(ExchangeError::ArithmeticOverflow),
                    },
                }
            },
    {
        if *token_in == *token_out {
            return Err(ExchangeError::SwapDupTokens);
        }
        let i = self.token_index(token_in)?;
        let o = self.token_index(token_out)?;
        let res = self.internal_get_return(i, amount_in, o, fees, now)?;
        from_c(res.amount_swapped, self.token_decimals[o])
    }

    /// Swap `token_amount_in` of `token_in` token into `token_out` and return how much was received.
    /// Assuming that `token_amount_in` was already received from `sender_id`.
    ///
    /// The pool keeps the trade fee; the admin part of it stays in the pool as liquidity, for
    /// shares minted to a registered referral and to the exchange.
    #[verifier::rlimit(40)]
    pub fn swap(
        &mut self,
        token_in: &String,
        amount_in: u128,
        token_out: &String,
        min_amount_out: u128,
        fees: &AdminFees,
        now: u64,
    ) -> (r: Result<u128, ExchangeError>)
        requires
            stable_pool_wf(old(self)),
        ensures
            stable_pool_wf(final(self)),
            match spec_swap(old(self), token_in@, amount_in as nat, token_out@, min_amount_out as nat, *fees, now) {
                Ok(t) => {
                    &&& r == Ok::<u128, ExchangeError>(t.4 as u128)
                    &&& final(self).c_amounts@ == t.0
                    &&& final(self).volumes@ == t.1
                    &&& final(self).shares@ == t.2
                    &&& final(self).shares_total_supply == t.3
                    &&& final(self).token_account_ids@ == old(self).token_account_ids@
                    &&& final(self).token_decimals@ == old(self).token_decimals@
                    &&& final(self).total_fee == old(self).total_fee
                    &&& final(self).init_amp_factor == old(self).init_amp_factor
                    &&& final(self).target_amp_factor == old(self).target_amp_factor
                    &&& final(self).init_amp_time == old(self).init_amp_time
                    &&& final(self).stop_amp_time == old(self).stop_amp_time
                },
                Err(e) => r == Err::<u128, ExchangeError>(e) && same_stable(old(self), final(self)),
            },
    {
        if *token_in == *token_out {
            return Err(ExchangeError::SwapDupTokens);
        }
        let in_idx = self.token_index(token_in)?;
        let out_idx = self.token_index(token_out)?;
        let result = self.internal_get_return(in_idx, amount_in, out_idx, fees, now)?;
        let amount_out = from_c(result.amount_swapped, self.token_decimals[out_idx])?;
        if amount_out < min_amount_out {
            return Err(ExchangeError::Slippage);
        }
        if result.new_destination_amount < MIN_RESERVE {
            return Err(ExchangeError::MinReserve);
        }
        let vi = self.volumes[in_idx];
        let vo = self.volumes[out_idx];
        if vi.input > u128::MAX - amount_in || vo.output > u128::MAX - amount_out {
            return Err(ExchangeError::ArithmeticOverflow);
        }
        let mut cs = self.c_amounts.clone();
        cs.set(in_idx, result.new_source_amount);
        cs.set(out_idx, result.new_destination_amount);
        let mut supply = self.shares_total_supply;
        let calc = self.get_invariant(now);
        let ghost amp = pool_amp(old(self), now);
        // handle admin / referral fee.
        let mut ref_fee: u128 = 0;
        let mut ref_shares: u128 = 0;
        let mut ex_fee: u128 = 0;
        let mut ex_shares: u128 = 0;
        let mut referral: String = fees.exchange_id.clone();
        let ghost c1 = cs@;
        if fees.admin_fee_bps > 0 && result.admin_fee > 0 {
            let ghost cut = referral_cut(*fees, result.admin_fee as nat);
            let (referral_share, referral_id) = match &fees.referral_info {
                Some((rid, f)) => match checked_ratio(result.admin_fee, *f as u128, FEE_DIVISOR as u128) {
                    Some(_) => fees.calc_referral_share(result.admin_fee),
                    None => {
                        return Err(ExchangeError::ArithmeticOverflow);
                    },
                },
                None => fees.calc_referral_share(result.admin_fee),
            };
            assert(referral_share == cut.0 && referral_id@ == cut.1);
            if referral_share > 0 && self.shares.contains_key(referral_id.as_str()) {
                ref_fee = referral_share;
            }
            if ref_fee > result.admin_fee {
                return Err(ExchangeError::ArithmeticOverflow);
            }
            if ref_fee > 0 {
                ref_shares = Self::fee_liquidity_shares(&calc, &cs, supply, out_idx, ref_fee)?;
                let rb = self.share_balance_of(&referral_id);
                if supply > u128::MAX - ref_shares || rb > u128::MAX - ref_shares {
                    return Err(ExchangeError::ArithmeticOverflow);
                }
                proof {
                    let x = spec_lp_for_deposit(amp, single_deposit(cs@.len(), out_idx as int, ref_fee as nat), cs@, supply as nat, 0);
                    assert(added_balances(cs@, single_deposit(cs@.len(), out_idx as int, ref_fee as nat)) is Some);
                    assert(single_deposit(cs@.len(), out_idx as int, ref_fee as nat)[out_idx as int] == ref_fee);
                    assert(cs@[out_idx as int] + ref_fee <= u128::MAX);
                }
                let v = cs[out_idx] + ref_fee;
                cs.set(out_idx, v);
                supply = supply + ref_shares;
            }
            referral = referral_id;
            ex_fee = result.admin_fee - ref_fee;
            if ex_fee > 0 {
                ex_shares = Self::fee_liquidity_shares(&calc, &cs, supply, out_idx, ex_fee)?;
                let eb0 = self.share_balance_of(&fees.exchange_id);
                let eb = if ref_shares > 0 && referral == fees.exchange_id {
                    eb0 + ref_shares
                } else {
                    eb0
                };
                if supply > u128::MAX - ex_shares || eb > u128::MAX - ex_shares {
                    return Err(ExchangeError::ArithmeticOverflow);
                }
                proof {
                    assert(added_balances(cs@, single_deposit(cs@.len(), out_idx as int, ex_fee as nat)) is Some);
                    assert(single_deposit(cs@.len(), out_idx as int, ex_fee as nat)[out_idx as int] == ex_fee);
                }
                let v = cs[out_idx] + ex_fee;
                cs.set(out_idx, v);
                supply = supply + ex_shares;
            }
        }
        // commit
        self.c_amounts = cs;
        if ref_shares > 0 {
            mint_shares(&mut self.shares, &mut self.shares_total_supply, &referral, ref_shares);
        }
        if ex_shares > 0 {
            mint_shares(&mut self.shares, &mut self.shares_total_supply, &fees.exchange_id, ex_shares);
        }
        // Keeping track of volume per each input traded separately.
        self.volumes.set(in_idx, SwapVolume { input: vi.input + amount_in, output: vi.output });
        self.volumes.set(out_idx, SwapVolume { input: vo.input, output: vo.output + amount_out });
        Ok(amount_out)
    }

    /// [Admin function] increase the amplification factor.
    ///
    /// The ramp starts from the amplification at `now`, which must be at least
    /// `MIN_RAMP_DURATION` after the last ramp started, and must last at least as long; the
    /// target must stay within a factor `MAX_AMP_CHANGE` of the current amplification.
    pub fn ramp_amplification(&mut self, future_amp_factor: u128, future_amp_time: u64, now: u64) -> (r: Result<(), ExchangeError>)
        requires
            stable_pool_wf(old(self)),
        ensures
            stable_pool_wf(final(self)),
            (now as nat) < old(self).init_amp_time + MIN_RAMP_DURATION ==> r == Err::<(), ExchangeError>(ExchangeError::AmpInLock),
            (now as nat) >= old(self).init_amp_time + MIN_RAMP_DURATION && (future_amp_time as nat) < now + MIN_RAMP_DURATION ==> r == Err::<(), ExchangeError>(ExchangeError::InsufficientRampTime),
            (now as nat) >= old(self).init_amp_time + MIN_RAMP_DURATION && (future_amp_time as nat) >= now + MIN_RAMP_DURATION ==> match pool_amp(old(self), now) {
                None => r == Err::<(), ExchangeError>(ExchangeError::InvariantCalcErr),
                Some(amp) => if !(0 < future_amp_factor < MAX_AMP) {
                    r == Err::<(), ExchangeError>(ExchangeError::InvalidAmpFactor)
                } else if !((future_amp_factor >= amp && future_amp_factor <= amp * MAX_AMP_CHANGE) || (future_amp_factor < amp && future_amp_factor * MAX_AMP_CHANGE >= amp)) {
                    r == Err::<(), ExchangeError>(ExchangeError::AmpLargeChange)
                } else {
                    &&& r is Ok
                    &&& final(self).init_amp_factor == amp
                    &&& final(self).init_amp_time == now
                    &&& final(self).target_amp_factor == future_amp_factor
                    &&& final(self).stop_amp_time == future_amp_time
                },
            },
            r is Err ==> same_stable(old(self), final(self)),
            final(self).token_account_ids@ == old(self).token_account_ids@,
            final(self).token_decimals@ == old(self).token_decimals@,
            final(self).c_amounts@ == old(self).c_amounts@,
            final(self).volumes@ == old(self).volumes@,
            final(self).total_fee == old(self).total_fee,
            final(self).shares@ == old(self).shares@,
            final(self).shares_total_supply == old(self).shares_total_supply,
    {
        if (now as u128) < self.init_amp_time as u128 + MIN_RAMP_DURATION as u128 {
            return Err(ExchangeError::AmpInLock);
        }
        if (future_amp_time as u128) < now as u128 + MIN_RAMP_DURATION as u128 {
            return Err(ExchangeError::InsufficientRampTime);
        }
        let amp_factor = match self.get_invariant(now).compute_amp_factor() {
            Some(v) => v,
            None => {
                return Err(ExchangeError::InvariantCalcErr);
            },
        };
        proof {
            lemma_amp_between(self.init_amp_factor as nat, self.target_amp_factor as nat, now as nat, self.init_amp_time as nat, self.stop_amp_time as nat);
        }
        if !(future_amp_factor > 0 && future_amp_factor < MAX_AMP) {
            return Err(ExchangeError::InvalidAmpFactor);
        }
        if !((future_amp_factor >= amp_factor && future_amp_factor <= amp_factor * MAX_AMP_CHANGE) || (future_amp_factor < amp_factor && future_amp_factor * MAX_AMP_CHANGE >= amp_factor)) {
            return Err(ExchangeError::AmpLargeChange);
        }
        self.init_amp_factor = amp_factor;
        self.init_amp_time = now;
        self.target_amp_factor = future_amp_factor;
        self.stop_amp_time = future_amp_time;
        Ok(())
    }

    /// [Admin function] Stop increase of amplification factor: the amplification stays at its
    /// value at `now`.
    pub fn stop_ramp_amplification(&mut self, now: u64) -> (r: Result<(), ExchangeError>)
        requires
            stable_pool_wf(old(self)),
        ensures
            stable_pool_wf(final(self)),
            match pool_amp(old(self), now) {
                None => r == Err::<(), ExchangeError>(ExchangeError::InitTokenBalance) && same_stable(old(self), final(self)),
                Some(amp) => {
                    &&& r is Ok
                    &&& final(self).init_amp_factor == amp
                    &&& final(self).target_amp_factor == amp
                    &&& final(self).init_amp_time == now
                    &&& final(self).stop_amp_time == now
                },
            },
            final(self).token_account_ids@ == old(self).token_account_ids@,
            final(self).token_decimals@ == old(self).token_decimals@,
            final(self).c_amounts@ == old(self).c_amounts@,
            final(self).volumes@ == old(self).volumes@,
            final(self).total_fee == old(self).total_fee,
            final(self).shares@ == old(self).shares@,
            final(self).shares_total_supply == old(self).shares_total_supply,
    {
        let amp_factor = match self.get_invariant(now).compute_amp_factor() {
            Some(v) => v,
            None => {
                return Err(ExchangeError::InitTokenBalance);
            },
        };
        proof {
            lemma_amp_between(self.init_amp_factor as nat, self.target_amp_factor as nat, now as nat, self.init_amp_time as nat, self.stop_amp_time as nat);
        }
        self.init_amp_factor = amp_factor;
        self.target_amp_factor = amp_factor;
        self.init_amp_time = now;
        self.stop_amp_time = now;
        Ok(())
    }
}

} // verus!
