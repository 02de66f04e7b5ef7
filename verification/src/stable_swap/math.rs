//! Calculator to maintain the stable swap invariant on adding/removing liquidity and on swapping.
//!
//! Every computation here is total: where an intermediate value leaves its
//! integer type, or a divisor is zero, the result is `None`.
use crate::admin_fee::AdminFees;
use crate::u256::{U256, u256_max};
use crate::utils::FEE_DIVISOR;
use vstd::arithmetic::div_mod::*;
use vstd::arithmetic::mul::*;
use vstd::arithmetic::power::*;
use vstd::prelude::*;

verus! {

/// Minimum ramp duration.
pub const MIN_RAMP_DURATION: u64 = 86400;

/// Min amplification coefficient.
pub const MIN_AMP: u128 = 1;

/// Max amplification coefficient.
pub const MAX_AMP: u128 = 1_000_000;

/// Max amplification change.
pub const MAX_AMP_CHANGE: u128 = 10;

/// The value of an optional big number.
pub open spec fn opt_view(o: Option<U256>) -> Option<nat> {
    match o {
        Some(v) => Some(v@),
        None => None,
    }
}

/// Stable Swap Fee calculator.
#[derive(Clone, Copy, Debug)]
pub struct Fees {
    pub trade_fee: u32,
    pub admin_fee: u32,
}

/// `amount * bps / FEE_DIVISOR`, or `None` where the product leaves 128 bits.
pub open spec fn spec_bps_of(amount: nat, bps: nat) -> Option<nat> {
    if amount * bps > u128::MAX {
        None
    } else {
        Some(amount * bps / 10_000)
    }
}

/// The fee rate applied to an imbalanced deposit or withdrawal of `n` coins.
pub open spec fn spec_adjusted_fee(trade_fee: nat, n: nat) -> nat {
    trade_fee * n / (4 * (n - 1) as nat)
}

/// Whether `amount * bps` stays within 128 bits.
fn bps_of(amount: u128, bps: u32) -> (r: Option<u128>)
    ensures
        match r {
            Some(v) => spec_bps_of(amount as nat, bps as nat) == Some(v as nat),
            None => spec_bps_of(amount as nat, bps as nat) is None,
        },
{
    match amount.checked_mul(bps as u128) {
        Some(p) => Some(p / FEE_DIVISOR as u128),
        None => None,
    }
}

impl Fees {
    /// The fees of a pool with `total_fee` whose admin takes `admin_fee_bps` of every fee.
    pub fn new(total_fee: u32, fees: &AdminFees) -> (r: Fees)
        ensures
            r.trade_fee == total_fee,
            r.admin_fee == fees.admin_fee_bps,
    {
        Fees { trade_fee: total_fee, admin_fee: fees.admin_fee_bps }
    }

    /// No fees.
    pub fn zero() -> (r: Fees)
        ensures
            r.trade_fee == 0,
            r.admin_fee == 0,
    {
        Fees { trade_fee: 0, admin_fee: 0 }
    }

    /// The trade fee on `amount`.
    pub fn trade_fee(&self, amount: u128) -> (r: u128)
        requires
            amount * self.trade_fee <= u128::MAX,
        ensures
            r == amount * self.trade_fee / 10_000,
    {
        amount * (self.trade_fee as u128) / (FEE_DIVISOR as u128)
    }

    /// The admin's part of a fee `amount`.
    pub fn admin_trade_fee(&self, amount: u128) -> (r: u128)
        requires
            amount * self.admin_fee <= u128::MAX,
        ensures
            r == amount * self.admin_fee / 10_000,
    {
        amount * (self.admin_fee as u128) / (FEE_DIVISOR as u128)
    }

    /// The fee on an imbalance of `amount` in a pool of `num_coins` coins.
    pub fn normalized_trade_fee(&self, num_coins: u32, amount: u128) -> (r: u128)
        requires
            num_coins >= 2,
            self.trade_fee * num_coins <= u32::MAX,
            4 * (num_coins - 1) <= u32::MAX,
            amount * spec_adjusted_fee(self.trade_fee as nat, num_coins as nat) <= u128::MAX,
        ensures
            r == amount * spec_adjusted_fee(self.trade_fee as nat, num_coins as nat) / 10_000,
    {
        let adjusted_trade_fee = (self.trade_fee * num_coins) / (4 * (num_coins - 1));
        amount * (adjusted_trade_fee as u128) / (FEE_DIVISOR as u128)
    }
}

/// Encodes all results of swapping from a source token to a destination token.
#[derive(Clone, Copy, Debug, PartialEq, Eq, Structural)]
pub struct SwapResult {
    /// New amount of source token.
    pub new_source_amount: u128,
    /// New amount of destination token.
    pub new_destination_amount: u128,
    /// Amount of destination token swapped.
    pub amount_swapped: u128,
    /// Admin fee for the swap.
    pub admin_fee: u128,
    /// Fee for the swap.
    pub fee: u128,
}

/// The StableSwap invariant calculator.
#[derive(Clone, Copy, Debug)]
pub struct StableSwap {
    /// Initial amplification coefficient (A)
    pub initial_amp_factor: u128,
    /// Target amplification coefficient (A)
    pub target_amp_factor: u128,
    /// Current unix timestamp
    pub current_ts: u64,
    /// Ramp A start timestamp
    pub start_ramp_ts: u64,
    /// Ramp A stop timestamp
    pub stop_ramp_ts: u64,
}

/// The amplification coefficient at `current`, moving linearly from `initial` at `start`
/// to `target` at `stop`.
pub open spec fn spec_amp_factor(initial: nat, target: nat, current: nat, start: nat, stop: nat) -> Option<nat> {
    if current < stop {
        if stop < start || current < start {
            None
        } else if target >= initial {
            let range = (target - initial) as nat;
            let delta_time = (current - start) as nat;
            if range * delta_time > u128::MAX {
                None
            } else if initial + range * delta_time / ((stop - start) as nat) > u128::MAX {
                None
            } else {
                Some(initial + range * delta_time / ((stop - start) as nat))
            }
        } else {
            let range = (initial - target) as nat;
            let delta_time = (current - start) as nat;
            if range * delta_time > u128::MAX {
                None
            } else {
                Some((initial - range * delta_time / ((stop - start) as nat)) as nat)
            }
        }
    } else {
        Some(target)
    }
}

/// `b^e`, or `None` where it leaves 128 bits.
pub open spec fn spec_checked_pow(b: nat, e: nat) -> Option<nat> {
    if pow(b as int, e) > u128::MAX {
        None
    } else {
        Some(pow(b as int, e) as nat)
    }
}

/// `b^e` within 128 bits.
fn checked_pow(b: u128, e: u128) -> (r: Option<u128>)
    ensures
        match r {
            Some(v) => spec_checked_pow(b as nat, e as nat) == Some(v as nat),
            None => spec_checked_pow(b as nat, e as nat) is None,
        },
{
    let mut acc: u128 = 1;
    let mut i: u128 = 0;
    proof {
        lemma_pow0(b as int);
    }
    while i < e
        invariant
            i <= e,
            acc == pow(b as int, i as nat),
        decreases e - i,
    {
        proof {
            lemma_pow_adds(b as int, i as nat, 1);
            lemma_pow1(b as int);
        }
        match acc.checked_mul(b) {
            Some(v) => {
                acc = v;
            },
            None => {
                proof {
                    // b >= 2 here, so the power only grows
                    assert(b >= 2) by (nonlinear_arith)
                        requires
                            acc * b > u128::MAX,
                            acc <= u128::MAX,
                    ;
                    lemma_pow_increases(b as nat, (i + 1) as nat, e as nat);
                }
                return None;
            },
        }
        i = i + 1;
    }
    Some(acc)
}

/// The sum of a list of amounts.
pub open spec fn sum_seq(s: Seq<u128>) -> nat
    decreases s.len(),
{
    if s.len() == 0 {
        0
    } else {
        sum_seq(s.drop_last()) + s.last() as nat
    }
}

/// The sum of the amounts, or `None` where it leaves 128 bits.
pub(crate) fn sum_amounts(cs: &Vec<u128>) -> (r: Option<u128>)
    ensures
        match r {
            Some(v) => v == sum_seq(cs@),
            None => sum_seq(cs@) > u128::MAX,
        },
{
    let mut acc: u128 = 0;
    let mut i: usize = 0;
    while i < cs.len()
        invariant
            i <= cs.len(),
            acc == sum_seq(cs@.subrange(0, i as int)),
        decreases cs.len() - i,
    {
        assert(cs@.subrange(0, i + 1).drop_last() == cs@.subrange(0, i as int));
        match acc.checked_add(cs[i]) {
            Some(v) => {
                acc = v;
            },
            None => {
                proof {
                    lemma_sum_prefix_le(cs@, i + 1);
                }
                return None;
            },
        }
        i = i + 1;
    }
    assert(cs@.subrange(0, cs.len() as int) == cs@);
    Some(acc)
}

/// A prefix sums to no more than the whole.
proof fn lemma_sum_prefix_le(s: Seq<u128>, k: int)
    requires
        0 <= k <= s.len(),
    ensures
        sum_seq(s.subrange(0, k)) <= sum_seq(s),
    decreases s.len(),
{
    if k < s.len() {
        assert(s.drop_last().subrange(0, k) == s.subrange(0, k));
        lemma_sum_prefix_le(s.drop_last(), k);
    } else {
        assert(s.subrange(0, k) == s);
    }
}

// ---------------------------------------------------------------------------
// The invariant D
// ---------------------------------------------------------------------------

/// `|a - b| <= 1`.
pub open spec fn close(a: nat, b: nat) -> bool {
    if a > b {
        a - b <= 1
    } else {
        b - a <= 1
    }
}

/// One factor of `D^(n+1) / (n^n prod x_i)`: `acc * d / (c * n + 1)`.
pub open spec fn prod_step(acc: Option<nat>, d: nat, c: nat, n: nat) -> Option<nat> {
    match acc {
        None => None,
        Some(a) => if a * d > u256_max() || c * n + 1 > u128::MAX {
            None
        } else {
            Some(a * d / (c * n + 1))
        },
    }
}

/// `d_prod`, folded over the coins in order.
pub open spec fn spec_d_prod(d: nat, cs: Seq<u128>, n: nat) -> Option<nat>
    decreases cs.len(),
{
    if cs.len() == 0 {
        Some(d)
    } else {
        prod_step(spec_d_prod(d, cs.drop_last(), n), d, cs.last() as nat, n)
    }
}

/// One Newton step for D:
/// `d' = (ann * sum_x + d_prod * n) * d / ((ann - 1) * d + (n + 1) * d_prod)`.
pub open spec fn d_next(d: nat, dp: nat, sum_x: nat, ann: nat, n: nat) -> Option<nat> {
    let leverage = sum_x * ann;
    let t = dp * n + leverage;
    let num = d * t;
    let den1 = d * (ann - 1) as nat;
    let den2 = dp * (n + 1);
    if dp * n > u256_max() || t > u256_max() || num > u256_max() || ann
        < 1 || den1 > u256_max() || den2 > u256_max() || den1 + den2 > u256_max() || den1 + den2
        == 0 {
        None
    } else {
        Some(num / (den1 + den2))
    }
}

/// At most `k` Newton steps for D from `d`, stopping once two estimates differ by at most one.
pub open spec fn d_iter(cs: Seq<u128>, n: nat, sum_x: nat, ann: nat, d: nat, k: nat) -> Option<nat>
    decreases k,
{
    if k == 0 {
        Some(d)
    } else {
        match spec_d_prod(d, cs, n) {
            None => None,
            Some(dp) => match d_next(d, dp, sum_x, ann, n) {
                None => None,
                Some(d2) => if close(d2, d) {
                    Some(d2)
                } else {
                    d_iter(cs, n, sum_x, ann, d2, (k - 1) as nat)
                },
            },
        }
    }
}

/// `A * n^n`, or `None` where it leaves 128 bits.
pub open spec fn spec_ann(amp: nat, n: nat) -> Option<nat> {
    match spec_checked_pow(n, n) {
        None => None,
        Some(p) => if amp * p > u128::MAX {
            None
        } else {
            Some(amp * p)
        },
    }
}

/// The stable swap invariant D of the amounts `cs` under amplification `amp`:
/// the root of `A * n^n * sum(x_i) + D = A * D * n^n + D^(n+1) / (n^n * prod(x_i))`,
/// found by at most 256 Newton steps from `sum(x_i)`.
pub open spec fn spec_compute_d(amp: Option<nat>, cs: Seq<u128>) -> Option<nat> {
    let sum_x = sum_seq(cs);
    if sum_x > u128::MAX {
        None
    } else if sum_x == 0 {
        Some(0)
    } else {
        match amp {
            None => None,
            Some(a) => match spec_ann(a, cs.len()) {
                None => None,
                Some(ann) => d_iter(cs, cs.len(), sum_x, ann, sum_x, 256),
            },
        }
    }
}

/// A failed prefix of the `d_prod` fold fails the whole fold.
proof fn lemma_d_prod_none(d: nat, cs: Seq<u128>, n: nat, k: int)
    requires
        0 <= k <= cs.len(),
        spec_d_prod(d, cs.subrange(0, k), n) is None,
    ensures
        spec_d_prod(d, cs, n) is None,
    decreases cs.len(),
{
    if k < cs.len() {
        assert(cs.drop_last().subrange(0, k) == cs.subrange(0, k));
        lemma_d_prod_none(d, cs.drop_last(), n, k);
    } else {
        assert(cs.subrange(0, k) == cs);
    }
}

// ---------------------------------------------------------------------------
// Solving for the balance of one coin
// ---------------------------------------------------------------------------

/// `c` and `s` of the solve for y, folded over the coins other than `ix` and `iy`:
/// each such coin `a` turns `(c, s)` into `(c * d / a, s + a)`.
pub open spec fn y_fold(cs: Seq<u128>, ix: int, iy: int, d: nat, c0: nat, s0: nat) -> Option<(nat, nat)>
    decreases cs.len(),
{
    if cs.len() == 0 {
        Some((c0, s0))
    } else {
        match y_fold(cs.drop_last(), ix, iy, d, c0, s0) {
            None => None,
            Some((c, s)) => {
                let idx = cs.len() - 1;
                let a = cs.last() as nat;
                if idx != ix && idx != iy {
                    if s + a > u128::MAX || c * d > u256_max() || a == 0 {
                        None
                    } else {
                        Some((c * d / a, s + a))
                    }
                } else {
                    Some((c, s))
                }
            },
        }
    }
}

/// One Newton step for y: `y' = (y^2 + c) / (2y + b - D)`.
pub open spec fn y_next(c: nat, b: nat, d: nat, y: nat) -> Option<nat> {
    if y * y > u256_max() || y * y + c > u256_max() || 2 * y > u256_max() || 2 * y + b
        > u256_max() || 2 * y + b < d || 2 * y + b - d == 0 {
        None
    } else {
        Some((y * y + c) / ((2 * y + b - d) as nat))
    }
}

/// At most `k` Newton steps for y from `y`, stopping once two estimates differ by at most one.
pub open spec fn y_iter(c: nat, b: nat, d: nat, y: nat, k: nat) -> Option<nat>
    decreases k,
{
    if k == 0 {
        Some(y)
    } else {
        match y_next(c, b, d, y) {
            None => None,
            Some(y2) => if close(y2, y) {
                Some(y2)
            } else {
                y_iter(c, b, d, y2, (k - 1) as nat)
            },
        }
    }
}

/// The balance of coin `iy` that keeps the invariant of `cs` once coin `ix` holds `x_c`:
/// the root of `y^2 + (b - D) y = c`, found by at most 256 Newton steps from D.
pub open spec fn spec_compute_y(amp: Option<nat>, x_c: nat, cs: Seq<u128>, ix: int, iy: int) -> Option<nat> {
    let n = cs.len();
    match amp {
        None => None,
        Some(a) => match spec_ann(a, n) {
            None => None,
            Some(ann) => match spec_compute_d(amp, cs) {
                None => None,
                Some(d) => if d * d > u256_max() || x_c == 0 {
                    None
                } else {
                    match y_fold(cs, ix, iy, d, d * d / x_c, x_c) {
                        None => None,
                        Some((c1, s)) => match spec_checked_pow(n, n) {
                            None => None,
                            Some(p) => if ann * p > u128::MAX || ann * p == 0 || c1 * d
                                > u256_max() || d / ann + s > u256_max() {
                                None
                            } else {
                                y_iter(c1 * d / (ann * p), d / ann + s, d, d, 256)
                            },
                        },
                    }
                },
            },
        },
    }
}

/// The result of swapping `x_in` of coin `ix` for coin `iy` in a pool holding `cs`.
/// The output is the drop in y's balance, less one unit of rounding, less the trade fee;
/// the admin's part of the fee leaves the pool too.
pub open spec fn spec_swap_to(
    amp: Option<nat>,
    ix: int,
    x_in: nat,
    iy: int,
    cs: Seq<u128>,
    trade_fee: nat,
    admin_fee: nat,
) -> Option<SwapResult> {
    if x_in + cs[ix] > u128::MAX {
        None
    } else {
        match spec_compute_y(amp, (x_in + cs[ix]) as nat, cs, ix, iy) {
            None => None,
            Some(y) => if y > cs[iy] {
                None
            } else {
                let dy0 = (cs[iy] - y) as nat;
                let dy = if dy0 > 0 {
                    (dy0 - 1) as nat
                } else {
                    0
                };
                match spec_bps_of(dy, trade_fee) {
                    None => None,
                    Some(fee) => match spec_bps_of(fee, admin_fee) {
                        None => None,
                        Some(admin) => if fee > dy || (dy - fee) + admin > cs[iy] {
                            None
                        } else {
                            Some(
                                SwapResult {
                                    new_source_amount: (cs[ix] + x_in) as u128,
                                    new_destination_amount: (cs[iy] - (dy - fee) - admin) as u128,
                                    amount_swapped: (dy - fee) as u128,
                                    admin_fee: admin as u128,
                                    fee: fee as u128,
                                },
                            )
                        },
                    },
                }
            },
        }
    }
}

/// A failed prefix of the y fold fails the whole fold.
proof fn lemma_y_fold_none(cs: Seq<u128>, ix: int, iy: int, d: nat, c0: nat, s0: nat, k: int)
    requires
        0 <= k <= cs.len(),
        y_fold(cs.subrange(0, k), ix, iy, d, c0, s0) is None,
    ensures
        y_fold(cs, ix, iy, d, c0, s0) is None,
    decreases cs.len(),
{
    if k < cs.len() {
        assert(cs.drop_last().subrange(0, k) == cs.subrange(0, k));
        lemma_y_fold_none(cs.drop_last(), ix, iy, d, c0, s0, k);
    } else {
        assert(cs.subrange(0, k) == cs);
    }
}

// ---------------------------------------------------------------------------
// Liquidity
// ---------------------------------------------------------------------------

/// The imbalance fee on `amount` in a pool of `n` coins, or `None` where it cannot be computed.
pub open spec fn spec_norm_fee(trade_fee: nat, n: nat, amount: nat) -> Option<nat> {
    if n < 2 || trade_fee * n > u32::MAX || 4 * (n - 1) > u32::MAX {
        None
    } else {
        spec_bps_of(amount, spec_adjusted_fee(trade_fee, n))
    }
}

/// A balance after its imbalance fee: `new_i` less the fee on its distance from the ideal
/// balance `d1 * old_i / d0`.
pub open spec fn adjust_balance(new_i: nat, old_i: nat, d0: nat, d1: nat, trade_fee: nat, n: nat) -> Option<nat> {
    if d1 * old_i > u256_max() || d0 == 0 || d1 * old_i / d0 > u128::MAX {
        None
    } else {
        let ideal = d1 * old_i / d0;
        let diff = if ideal > new_i {
            (ideal - new_i) as nat
        } else {
            (new_i - ideal) as nat
        };
        match spec_norm_fee(trade_fee, n, diff) {
            None => None,
            Some(fee) => if fee > new_i {
                None
            } else {
                Some((new_i - fee) as nat)
            },
        }
    }
}

/// Every balance after its imbalance fee, or `None` where one cannot be computed.
pub open spec fn adjusted_balances(newb: Seq<u128>, old: Seq<u128>, d0: nat, d1: nat, trade_fee: nat) -> Option<Seq<u128>> {
    if exists|i: int| 0 <= i < newb.len() && #[trigger] adjust_balance(newb[i] as nat, old[i] as nat, d0, d1, trade_fee, old.len()) is None {
        None
    } else {
        Some(Seq::new(newb.len(), |i: int| adjust_balance(newb[i] as nat, old[i] as nat, d0, d1, trade_fee, old.len())->0 as u128))
    }
}

/// `old + dep` element by element, or `None` where a sum leaves 128 bits.
pub open spec fn added_balances(old: Seq<u128>, dep: Seq<u128>) -> Option<Seq<u128>> {
    if exists|i: int| #![trigger old[i]] 0 <= i < old.len() && old[i] + dep[i] > u128::MAX {
        None
    } else {
        Some(Seq::new(old.len(), |i: int| (old[i] + dep[i]) as u128))
    }
}

/// `old - wd` element by element, or `None` where a difference is negative.
pub open spec fn subtracted_balances(old: Seq<u128>, wd: Seq<u128>) -> Option<Seq<u128>> {
    if exists|i: int| #![trigger old[i]] 0 <= i < old.len() && old[i] < wd[i] {
        None
    } else {
        Some(Seq::new(old.len(), |i: int| (old[i] - wd[i]) as u128))
    }
}

/// `supply * num / d0` as a 128-bit number, or `None`.
pub open spec fn share_of(supply: nat, num: nat, d0: nat) -> Option<nat> {
    if supply * num > u256_max() || d0 == 0 || supply * num / d0 > u128::MAX {
        None
    } else {
        Some(supply * num / d0)
    }
}

/// The shares minted for a deposit `dep` into a pool holding `old` with `supply` shares, and
/// the part of the shares the fees took: D0 before, D1 after, D2 after charging each coin its
/// imbalance fee; the mint is `supply * (D2 - D0) / D0`, the fee part the rest of
/// `supply * (D1 - D0) / D0`.
pub open spec fn spec_lp_for_deposit(
    amp: Option<nat>,
    dep: Seq<u128>,
    old: Seq<u128>,
    supply: nat,
    trade_fee: nat,
) -> Option<(nat, nat)> {
    match spec_compute_d(amp, old) {
        None => None,
        Some(d0) => match added_balances(old, dep) {
            None => None,
            Some(newb) => match spec_compute_d(amp, newb) {
                None => None,
                Some(d1) => if d1 <= d0 {
                    None
                } else {
                    match adjusted_balances(newb, old, d0, d1, trade_fee) {
                        None => None,
                        Some(adj) => match spec_compute_d(amp, adj) {
                            None => None,
                            Some(d2) => if d2 < d0 {
                                None
                            } else {
                                match (share_of(supply, (d2 - d0) as nat, d0), share_of(supply, (d1 - d0) as nat, d0)) {
                                    (Some(mint), Some(diff)) => if diff < mint {
                                        None
                                    } else {
                                        Some((mint, (diff - mint) as nat))
                                    },
                                    _ => None,
                                }
                            },
                        },
                    }
                },
            },
        },
    }
}

/// The shares burnt for withdrawing `wd` from a pool holding `old` with `supply` shares, and
/// the part of them the fees took: the burn is `supply * (D0 - D2) / D0`, the fee part what
/// exceeds `supply * (D0 - D1) / D0`.
pub open spec fn spec_lp_for_withdraw(
    amp: Option<nat>,
    wd: Seq<u128>,
    old: Seq<u128>,
    supply: nat,
    trade_fee: nat,
) -> Option<(nat, nat)> {
    match spec_compute_d(amp, old) {
        None => None,
        Some(d0) => match subtracted_balances(old, wd) {
            None => None,
            Some(newb) => match spec_compute_d(amp, newb) {
                None => None,
                Some(d1) => if d1 >= d0 {
                    None
                } else {
                    match adjusted_balances(newb, old, d0, d1, trade_fee) {
                        None => None,
                        Some(adj) => match spec_compute_d(amp, adj) {
                            None => None,
                            Some(d2) => if d2 > d0 {
                                None
                            } else {
                                match (share_of(supply, (d0 - d2) as nat, d0), share_of(supply, (d0 - d1) as nat, d0)) {
                                    (Some(burn), Some(diff)) => if burn < diff {
                                        None
                                    } else {
                                        Some((burn, (burn - diff) as nat))
                                    },
                                    _ => None,
                                }
                            },
                        },
                    }
                },
            },
        },
    }
}

impl StableSwap {
    /// A calculator for the given ramp of the amplification and the current time.
    pub fn new(
        initial_amp_factor: u128,
        target_amp_factor: u128,
        current_ts: u64,
        start_ramp_ts: u64,
        stop_ramp_ts: u64,
    ) -> (r: StableSwap)
        ensures
            r.initial_amp_factor == initial_amp_factor,
            r.target_amp_factor == target_amp_factor,
            r.current_ts == current_ts,
            r.start_ramp_ts == start_ramp_ts,
            r.stop_ramp_ts == stop_ramp_ts,
    {
        StableSwap { initial_amp_factor, target_amp_factor, current_ts, start_ramp_ts, stop_ramp_ts }
    }

    /// The amplification coefficient this calculator works with.
    pub open spec fn spec_amp(&self) -> Option<nat> {
        spec_amp_factor(
            self.initial_amp_factor as nat,
            self.target_amp_factor as nat,
            self.current_ts as nat,
            self.start_ramp_ts as nat,
            self.stop_ramp_ts as nat,
        )
    }

    /// Compute the amplification coefficient (A)
    pub fn compute_amp_factor(&self) -> (r: Option<u128>)
        ensures
            match r {
                Some(v) => self.spec_amp() == Some(v as nat),
                None => self.spec_amp() is None,
            },
    {
        if self.current_ts < self.stop_ramp_ts {
            let time_range = match self.stop_ramp_ts.checked_sub(self.start_ramp_ts) {
                Some(v) => v,
                None => {
                    return None;
                },
            };
            let time_delta = match self.current_ts.checked_sub(self.start_ramp_ts) {
                Some(v) => v,
                None => {
                    return None;
                },
            };
            assert(time_range > 0);
            if self.target_amp_factor >= self.initial_amp_factor {
                // Ramp up
                let amp_range = self.target_amp_factor - self.initial_amp_factor;
                let amp_delta = match amp_range.checked_mul(time_delta as u128) {
                    Some(v) => v / (time_range as u128),
                    None => {
                        return None;
                    },
                };
                self.initial_amp_factor.checked_add(amp_delta)
            } else {
                // Ramp down
                let amp_range = self.initial_amp_factor - self.target_amp_factor;
                let amp_delta = match amp_range.checked_mul(time_delta as u128) {
                    Some(v) => v / (time_range as u128),
                    None => {
                        return None;
                    },
                };
                assert(amp_delta <= amp_range) by (nonlinear_arith)
                    requires
                        amp_delta == (amp_range as nat * time_delta as nat) / (time_range as nat),
                        time_delta < time_range,
                        time_range > 0,
                {
                    assert(amp_range * time_delta <= amp_range * time_range) by (nonlinear_arith)
                        requires
                            time_delta < time_range,
                            amp_range >= 0,
                    ;
                    lemma_div_is_ordered(
                        (amp_range * time_delta) as int,
                        (amp_range * time_range) as int,
                        time_range as int,
                    );
                    lemma_div_by_multiple(amp_range as int, time_range as int);
                }
                Some(self.initial_amp_factor - amp_delta)
            }
        } else {
            // when stop_ramp_ts == 0 or current_ts >= stop_ramp_ts
            Some(self.target_amp_factor)
        }
    }

    /// `A * n^n`.
    fn compute_ann(amp: u128, n: u128) -> (r: Option<u128>)
        ensures
            match r {
                Some(v) => spec_ann(amp as nat, n as nat) == Some(v as nat),
                None => spec_ann(amp as nat, n as nat) is None,
            },
    {
        match checked_pow(n, n) {
            Some(p) => amp.checked_mul(p),
            None => None,
        }
    }

    /// `d_prod` for one Newton step from `d`.
    fn compute_d_prod(d: &U256, c_amounts: &Vec<u128>, n_coins: u128) -> (r: Option<U256>)
        requires
            n_coins == c_amounts.len(),
        ensures
            opt_view(r) == spec_d_prod(d@, c_amounts@, n_coins as nat),
    {
        let mut d_prod = *d;
        let mut j: usize = 0;
        while j < c_amounts.len()
            invariant
                n_coins == c_amounts.len(),
                j <= c_amounts.len(),
                Some(d_prod@) == spec_d_prod(d@, c_amounts@.subrange(0, j as int), n_coins as nat),
            decreases c_amounts.len() - j,
        {
            let ghost sub = c_amounts@.subrange(0, j + 1);
            assert(sub.drop_last() == c_amounts@.subrange(0, j as int));
            assert(sub.last() == c_amounts@[j as int]);
            let c = c_amounts[j];
            let step = match d_prod.checked_mul(d) {
                Some(v) => v,
                None => {
                    proof {
                        lemma_d_prod_none(d@, c_amounts@, n_coins as nat, j + 1);
                    }
                    return None;
                },
            };
            let denom = match c.checked_mul(n_coins) {
                Some(v) => match v.checked_add(1) {
                    Some(w) => w,
                    None => {
                        proof {
                            lemma_d_prod_none(d@, c_amounts@, n_coins as nat, j + 1);
                        }
                        return None;
                    },
                },
                None => {
                    proof {
                        lemma_d_prod_none(d@, c_amounts@, n_coins as nat, j + 1);
                    }
                    return None;
                },
            };
            d_prod = step.div(&U256::from_u128(denom));
            j = j + 1;
        }
        assert(c_amounts@.subrange(0, c_amounts.len() as int) == c_amounts@);
        Some(d_prod)
    }

    /// One Newton step for D.
    fn compute_d_next(d: &U256, d_prod: &U256, sum_x: u128, ann: u128, n_coins: u128) -> (r: Option<
        U256,
    >)
        requires
            n_coins < u128::MAX,
        ensures
            opt_view(r) == d_next(d@, d_prod@, sum_x as nat, ann as nat, n_coins as nat),
    {
        proof {
            assert(sum_x as nat * ann as nat <= u128::MAX * u128::MAX) by (nonlinear_arith)
                requires
                    sum_x <= u128::MAX,
                    ann <= u128::MAX,
            ;
            assert(u128::MAX * u128::MAX <= u256_max()) by (nonlinear_arith);
        }
        let leverage = U256::from_u128(sum_x).mul(&U256::from_u128(ann));
        let t1 = match d_prod.checked_mul(&U256::from_u128(n_coins)) {
            Some(v) => v,
            None => {
                return None;
            },
        };
        let t = match t1.checked_add(&leverage) {
            Some(v) => v,
            None => {
                return None;
            },
        };
        let numerator = match d.checked_mul(&t) {
            Some(v) => v,
            None => {
                return None;
            },
        };
        let ann_1 = match ann.checked_sub(1) {
            Some(v) => v,
            None => {
                return None;
            },
        };
        let den1 = match d.checked_mul(&U256::from_u128(ann_1)) {
            Some(v) => v,
            None => {
                return None;
            },
        };
        let den2 = match d_prod.checked_mul(&U256::from_u128(n_coins + 1)) {
            Some(v) => v,
            None => {
                return None;
            },
        };
        let denominator = match den1.checked_add(&den2) {
            Some(v) => v,
            None => {
                return None;
            },
        };
        numerator.checked_div(&denominator)
    }

    /// Whether two estimates differ by at most one.
    fn is_close(a: &U256, b: &U256) -> (r: bool)
        ensures
            r == close(a@, b@),
    {
        let one = U256::one();
        if b.lt(a) {
            a.sub(b).le(&one)
        } else {
            b.sub(a).le(&one)
        }
    }

    /// Compute stable swap invariant (D)
    /// Equation:
    /// A * sum(x_i) * n**n + D = A * D * n**n + D**(n+1) / (n**n * prod(x_i))
    pub fn compute_d_ex(&self, c_amounts: &Vec<u128>) -> (r: Option<U256>)
        requires
            c_amounts.len() < u128::MAX,
        ensures
            opt_view(r) == spec_compute_d(self.spec_amp(), c_amounts@),
    {
        let n_coins = c_amounts.len() as u128;
        let sum_x = match sum_amounts(c_amounts) {
            Some(v) => v,
            None => {
                return None;
            },
        };
        if sum_x == 0 {
            return Some(U256::zero());
        }
        let amp_factor = match self.compute_amp_factor() {
            Some(v) => v,
            None => {
                return None;
            },
        };
        let ann = match Self::compute_ann(amp_factor, n_coins) {
            Some(v) => v,
            None => {
                return None;
            },
        };
        let ghost target = spec_compute_d(self.spec_amp(), c_amounts@);
        let mut d = U256::from_u128(sum_x);
        let mut i: u32 = 0;
        while i < 256
            invariant
                n_coins == c_amounts.len(),
                n_coins < u128::MAX,
                i <= 256,
                target == spec_compute_d(self.spec_amp(), c_amounts@),
                target == d_iter(c_amounts@, n_coins as nat, sum_x as nat, ann as nat, d@, (256 - i) as nat),
            decreases 256 - i,
        {
            let ghost k = (256 - i) as nat;
            let ghost cs = c_amounts@;
            let d_prod = match Self::compute_d_prod(&d, c_amounts, n_coins) {
                Some(v) => v,
                None => {
                    assert(d_iter(cs, n_coins as nat, sum_x as nat, ann as nat, d@, k) is None);
                    return None;
                },
            };
            let d_prev = d;
            d = match Self::compute_d_next(&d_prev, &d_prod, sum_x, ann, n_coins) {
                Some(v) => v,
                None => {
                    assert(d_iter(cs, n_coins as nat, sum_x as nat, ann as nat, d_prev@, k) is None);
                    return None;
                },
            };
            // Equality with the precision of 1
            if Self::is_close(&d, &d_prev) {
                assert(d_iter(cs, n_coins as nat, sum_x as nat, ann as nat, d_prev@, k) == Some(d@));
                return Some(d);
            }
            i = i + 1;
        }
        Some(d)
    }
}


impl StableSwap {
    /// One Newton step for y.
    fn compute_y_next(c: &U256, b: &U256, d: &U256, y: &U256) -> (r: Option<U256>)
        ensures
            opt_view(r) == y_next(c@, b@, d@, y@),
    {
        let y2 = match y.checked_mul(y) {
            Some(v) => v,
            None => {
                return None;
            },
        };
        let num = match y2.checked_add(c) {
            Some(v) => v,
            None => {
                return None;
            },
        };
        let two_y = match y.checked_mul(&U256::from_u128(2)) {
            Some(v) => v,
            None => {
                return None;
            },
        };
        let t = match two_y.checked_add(b) {
            Some(v) => v,
            None => {
                return None;
            },
        };
        let den = match t.checked_sub(d) {
            Some(v) => v,
            None => {
                return None;
            },
        };
        num.checked_div(&den)
    }

    /// Compute the balance of token `index_y` that keeps the invariant once token `index_x`
    /// holds `x_c_amount`.
    pub fn compute_y_ex(&self, x_c_amount: u128, current_c_amounts: &Vec<u128>, index_x: usize, index_y: usize) -> (r: Option<U256>)
        requires
            current_c_amounts.len() < u128::MAX,
        ensures
            opt_view(r) == spec_compute_y(self.spec_amp(), x_c_amount as nat, current_c_amounts@, index_x as int, index_y as int),
    {
        let n_coins = current_c_amounts.len() as u128;
        let ghost cs = current_c_amounts@;
        let amp_factor = match self.compute_amp_factor() {
            Some(v) => v,
            None => {
                return None;
            },
        };
        let ann = match Self::compute_ann(amp_factor, n_coins) {
            Some(v) => v,
            None => {
                return None;
            },
        };
        // invariant
        let d = match self.compute_d_ex(current_c_amounts) {
            Some(v) => v,
            None => {
                return None;
            },
        };
        let dd = match d.checked_mul(&d) {
            Some(v) => v,
            None => {
                return None;
            },
        };
        let mut c = match dd.checked_div(&U256::from_u128(x_c_amount)) {
            Some(v) => v,
            None => {
                return None;
            },
        };
        let mut s_: u128 = x_c_amount;
        let mut idx: usize = 0;
        while idx < current_c_amounts.len()
            invariant
                cs == current_c_amounts@,
                n_coins == cs.len(),
                self.spec_amp() == Some(amp_factor as nat),
                spec_ann(amp_factor as nat, n_coins as nat) == Some(ann as nat),
                spec_compute_d(self.spec_amp(), cs) == Some(d@),
                idx <= cs.len(),
                d@ * d@ <= u256_max(),
                x_c_amount > 0,
                y_fold(cs.subrange(0, idx as int), index_x as int, index_y as int, d@, d@ * d@ / (x_c_amount as nat), x_c_amount as nat) == Some((c@, s_ as nat)),
            decreases cs.len() - idx,
        {
            let ghost sub = cs.subrange(0, idx + 1);
            assert(sub.drop_last() == cs.subrange(0, idx as int));
            assert(sub.last() == cs[idx as int]);
            let c_amount = current_c_amounts[idx];
            if idx != index_x && idx != index_y {
                let ns = match s_.checked_add(c_amount) {
                    Some(v) => v,
                    None => {
                        proof {
                            lemma_y_fold_none(cs, index_x as int, index_y as int, d@, d@ * d@ / (x_c_amount as nat), x_c_amount as nat, idx + 1);
                        }
                        return None;
                    },
                };
                let cd = match c.checked_mul(&d) {
                    Some(v) => v,
                    None => {
                        proof {
                            lemma_y_fold_none(cs, index_x as int, index_y as int, d@, d@ * d@ / (x_c_amount as nat), x_c_amount as nat, idx + 1);
                        }
                        return None;
                    },
                };
                c = match cd.checked_div(&U256::from_u128(c_amount)) {
                    Some(v) => v,
                    None => {
                        proof {
                            lemma_y_fold_none(cs, index_x as int, index_y as int, d@, d@ * d@ / (x_c_amount as nat), x_c_amount as nat, idx + 1);
                        }
                        return None;
                    },
                };
                s_ = ns;
            }
            idx = idx + 1;
        }
        assert(cs.subrange(0, cs.len() as int) == cs);
        let p = match checked_pow(n_coins, n_coins) {
            Some(v) => v,
            None => {
                return None;
            },
        };
        let ann_p = match ann.checked_mul(p) {
            Some(v) => v,
            None => {
                return None;
            },
        };
        let cd = match c.checked_mul(&d) {
            Some(v) => v,
            None => {
                return None;
            },
        };
        let c = match cd.checked_div(&U256::from_u128(ann_p)) {
            Some(v) => v,
            None => {
                return None;
            },
        };
        let d_ann = match d.checked_div(&U256::from_u128(ann)) {
            Some(v) => v,
            None => {
                return None;
            },
        };
        // d will be subtracted later
        let b = match d_ann.checked_add(&U256::from_u128(s_)) {
            Some(v) => v,
            None => {
                return None;
            },
        };
        let ghost target = spec_compute_y(self.spec_amp(), x_c_amount as nat, cs, index_x as int, index_y as int);
        assert(target == y_iter(c@, b@, d@, d@, 256));
        // Solve for y by approximating: y**2 + b*y = c
        let mut y = d;
        let mut i: u32 = 0;
        while i < 256
            invariant
                i <= 256,
                target == spec_compute_y(self.spec_amp(), x_c_amount as nat, current_c_amounts@, index_x as int, index_y as int),
                target == y_iter(c@, b@, d@, y@, (256 - i) as nat),
            decreases 256 - i,
        {
            let ghost k = (256 - i) as nat;
            let y_prev = y;
            y = match Self::compute_y_next(&c, &b, &d, &y_prev) {
                Some(v) => v,
                None => {
                    assert(y_iter(c@, b@, d@, y_prev@, k) is None);
                    return None;
                },
            };
            if Self::is_close(&y, &y_prev) {
                assert(y_iter(c@, b@, d@, y_prev@, k) == Some(y@));
                return Some(y);
            }
            i = i + 1;
        }
        Some(y)
    }

    /// Compute SwapResult after an exchange
    pub fn swap_to_ex(
        &self,
        token_in_idx: usize,
        token_in_amount: u128,
        token_out_idx: usize,
        current_c_amounts: &Vec<u128>,
        fees: &Fees,
    ) -> (r: Option<SwapResult>)
        requires
            token_in_idx < current_c_amounts.len(),
            token_out_idx < current_c_amounts.len(),
        ensures
            r == spec_swap_to(self.spec_amp(), token_in_idx as int, token_in_amount as nat, token_out_idx as int, current_c_amounts@, fees.trade_fee as nat, fees.admin_fee as nat),
    {
        let x = match token_in_amount.checked_add(current_c_amounts[token_in_idx]) {
            Some(v) => v,
            None => {
                return None;
            },
        };
        let y = match self.compute_y_ex(x, current_c_amounts, token_in_idx, token_out_idx) {
            Some(v) => v,
            None => {
                return None;
            },
        };
        let y = match y.to_u128() {
            Some(v) => v,
            None => {
                return None;
            },
        };
        let dy0 = match current_c_amounts[token_out_idx].checked_sub(y) {
            Some(v) => v,
            None => {
                return None;
            },
        };
        let dy = if dy0 > 0 { dy0 - 1 } else { 0 };
        let trade_fee = match bps_of(dy, fees.trade_fee) {
            Some(v) => v,
            None => {
                return None;
            },
        };
        let admin_fee = match bps_of(trade_fee, fees.admin_fee) {
            Some(v) => v,
            None => {
                return None;
            },
        };
        let amount_swapped = match dy.checked_sub(trade_fee) {
            Some(v) => v,
            None => {
                return None;
            },
        };
        let new_destination_amount = match current_c_amounts[token_out_idx].checked_sub(amount_swapped) {
            Some(v) => match v.checked_sub(admin_fee) {
                Some(w) => w,
                None => {
                    return None;
                },
            },
            None => {
                return None;
            },
        };
        let new_source_amount = current_c_amounts[token_in_idx] + token_in_amount;
        Some(SwapResult { new_source_amount, new_destination_amount, amount_swapped, admin_fee, fee: trade_fee })
    }

    /// Every balance after its imbalance fee.
    fn adjust_balances(new_balances: &Vec<u128>, old_balances: &Vec<u128>, d_0: &U256, d_1: &U256, fees: &Fees) -> (r: Option<Vec<u128>>)
        requires
            new_balances.len() == old_balances.len(),
        ensures
            match r {
                Some(v) => adjusted_balances(new_balances@, old_balances@, d_0@, d_1@, fees.trade_fee as nat) == Some(v@),
                None => adjusted_balances(new_balances@, old_balances@, d_0@, d_1@, fees.trade_fee as nat) is None,
            },
    {
        let n = old_balances.len();
        let ghost nb = new_balances@;
        let ghost ob = old_balances@;
        let ghost tf = fees.trade_fee as nat;
        let mut out: Vec<u128> = Vec::new();
        let mut i: usize = 0;
        while i < n
            invariant
                n == old_balances.len(),
                n == new_balances.len(),
                nb == new_balances@,
                ob == old_balances@,
                tf == fees.trade_fee as nat,
                i <= n,
                out.len() == i,
                forall|j: int| 0 <= j < i ==> #[trigger] adjust_balance(nb[j] as nat, ob[j] as nat, d_0@, d_1@, tf, n as nat) == Some(out@[j] as nat),
            decreases n - i,
        {
            let ghost target = adjust_balance(nb[i as int] as nat, ob[i as int] as nat, d_0@, d_1@, tf, n as nat);
            let prod = match d_1.checked_mul(&U256::from_u128(old_balances[i])) {
                Some(v) => v,
                None => {
                    assert(target is None);
                    return None;
                },
            };
            let ideal = match prod.checked_div(d_0) {
                Some(v) => match v.to_u128() {
                    Some(w) => w,
                    None => {
                        assert(target is None);
                        return None;
                    },
                },
                None => {
                    assert(target is None);
                    return None;
                },
            };
            let difference = if ideal > new_balances[i] {
                ideal - new_balances[i]
            } else {
                new_balances[i] - ideal
            };
            let n32: u32 = if n <= u32::MAX as usize { n as u32 } else {
                assert(target is None);
                return None;
            };
            if n32 < 2 {
                assert(target is None);
                return None;
            }
            match fees.trade_fee.checked_mul(n32) {
                Some(_) => {},
                None => {
                    assert(target is None);
                    return None;
                },
            }
            if n32 - 1 > u32::MAX / 4 {
                assert(target is None);
                return None;
            }
            match difference.checked_mul(((fees.trade_fee * n32) / (4 * (n32 - 1))) as u128) {
                Some(_) => {},
                None => {
                    assert(target is None);
                    return None;
                },
            }
            let fee = fees.normalized_trade_fee(n32, difference);
            if fee > new_balances[i] {
                assert(target is None);
                return None;
            }
            out.push(new_balances[i] - fee);
            assert(target == Some(out@[i as int] as nat));
            i = i + 1;
        }
        assert(out@ == Seq::new(nb.len(), |j: int| adjust_balance(nb[j] as nat, ob[j] as nat, d_0@, d_1@, tf, ob.len())->0 as u128));
        Some(out)
    }

    /// `supply * num / d_0` as a 128-bit number.
    fn compute_share(supply: u128, num: &U256, d_0: &U256) -> (r: Option<u128>)
        ensures
            match r {
                Some(v) => share_of(supply as nat, num@, d_0@) == Some(v as nat),
                None => share_of(supply as nat, num@, d_0@) is None,
            },
    {
        match U256::from_u128(supply).checked_mul(num) {
            Some(p) => match p.checked_div(d_0) {
                Some(q) => q.to_u128(),
                None => None,
            },
            None => None,
        }
    }

    /// Compute the amount of LP tokens to mint after a deposit, and the part of them that
    /// the fees took.
    pub fn compute_lp_amount_for_deposit_ex(
        &self,
        deposit_c_amounts: &Vec<u128>,
        old_c_amounts: &Vec<u128>,
        pool_token_supply: u128,
        fees: &Fees,
    ) -> (r: Option<(u128, u128)>)
        requires
            deposit_c_amounts.len() == old_c_amounts.len(),
            old_c_amounts.len() < u128::MAX,
        ensures
            match r {
                Some((mint, fee_part)) => spec_lp_for_deposit(self.spec_amp(), deposit_c_amounts@, old_c_amounts@, pool_token_supply as nat, fees.trade_fee as nat) == Some((mint as nat, fee_part as nat)),
                None => spec_lp_for_deposit(self.spec_amp(), deposit_c_amounts@, old_c_amounts@, pool_token_supply as nat, fees.trade_fee as nat) is None,
            },
    {
        let n_coins = old_c_amounts.len();
        // Initial invariant
        let d_0 = match self.compute_d_ex(old_c_amounts) {
            Some(v) => v,
            None => {
                return None;
            },
        };
        let mut new_balances: Vec<u128> = Vec::new();
        let mut i: usize = 0;
        while i < n_coins
            invariant
                n_coins == old_c_amounts.len(),
                n_coins == deposit_c_amounts.len(),
                i <= n_coins,
                new_balances.len() == i,
                forall|j: int| 0 <= j < i ==> #[trigger] new_balances@[j] == old_c_amounts@[j] + deposit_c_amounts@[j],
            decreases n_coins - i,
        {
            match old_c_amounts[i].checked_add(deposit_c_amounts[i]) {
                Some(v) => new_balances.push(v),
                None => {
                    assert(added_balances(old_c_amounts@, deposit_c_amounts@) is None);
                    return None;
                },
            }
            i = i + 1;
        }
        assert(new_balances@ =~= Seq::new(old_c_amounts@.len(), |i: int| (old_c_amounts@[i] + deposit_c_amounts@[i]) as u128));
        assert forall|j: int| 0 <= j < old_c_amounts@.len() implies !(old_c_amounts@[j] + deposit_c_amounts@[j] > u128::MAX) by {
            assert(new_balances@[j] == old_c_amounts@[j] + deposit_c_amounts@[j]);
        }
        assert(added_balances(old_c_amounts@, deposit_c_amounts@) == Some(new_balances@));
        // Invariant after change
        let d_1 = match self.compute_d_ex(&new_balances) {
            Some(v) => v,
            None => {
                return None;
            },
        };
        if d_1.le(&d_0) {
            return None;
        }
        // Recalculate the invariant accounting for fees
        let adjusted = match Self::adjust_balances(&new_balances, old_c_amounts, &d_0, &d_1, fees) {
            Some(v) => v,
            None => {
                return None;
            },
        };
        let d_2 = match self.compute_d_ex(&adjusted) {
            Some(v) => v,
            None => {
                return None;
            },
        };
        // d1 > d2 > d0: (d2 - d0) gives the mint, (d1 - d0) the shares without fee
        let gain = match d_2.checked_sub(&d_0) {
            Some(v) => v,
            None => {
                return None;
            },
        };
        let mint_shares = match Self::compute_share(pool_token_supply, &gain, &d_0) {
            Some(v) => v,
            None => {
                return None;
            },
        };
        let diff_shares = match Self::compute_share(pool_token_supply, &d_1.sub(&d_0), &d_0) {
            Some(v) => v,
            None => {
                return None;
            },
        };
        match diff_shares.checked_sub(mint_shares) {
            Some(fee_part) => Some((mint_shares, fee_part)),
            None => None,
        }
    }

    /// Compute the amount of LP tokens to burn for a withdrawal of given amounts, and the part
    /// of them that the fees took.
    pub fn compute_lp_amount_for_withdraw(
        &self,
        withdraw_c_amounts: &Vec<u128>,
        old_c_amounts: &Vec<u128>,
        pool_token_supply: u128,
        fees: &Fees,
    ) -> (r: Option<(u128, u128)>)
        requires
            withdraw_c_amounts.len() == old_c_amounts.len(),
            old_c_amounts.len() < u128::MAX,
        ensures
            match r {
                Some((burn, fee_part)) => spec_lp_for_withdraw(self.spec_amp(), withdraw_c_amounts@, old_c_amounts@, pool_token_supply as nat, fees.trade_fee as nat) == Some((burn as nat, fee_part as nat)),
                None => spec_lp_for_withdraw(self.spec_amp(), withdraw_c_amounts@, old_c_amounts@, pool_token_supply as nat, fees.trade_fee as nat) is None,
            },
    {
        let n_coins = old_c_amounts.len();
        // Initial invariant, D0
        let d_0 = match self.compute_d_ex(old_c_amounts) {
            Some(v) => v,
            None => {
                return None;
            },
        };
        // invariant after withdraw, D1
        let mut new_balances: Vec<u128> = Vec::new();
        let mut i: usize = 0;
        while i < n_coins
            invariant
                n_coins == old_c_amounts.len(),
                n_coins == withdraw_c_amounts.len(),
                i <= n_coins,
                new_balances.len() == i,
                forall|j: int| 0 <= j < i ==> #[trigger] new_balances@[j] == old_c_amounts@[j] - withdraw_c_amounts@[j],
            decreases n_coins - i,
        {
            match old_c_amounts[i].checked_sub(withdraw_c_amounts[i]) {
                Some(v) => new_balances.push(v),
                None => {
                    assert(subtracted_balances(old_c_amounts@, withdraw_c_amounts@) is None);
                    return None;
                },
            }
            i = i + 1;
        }
        assert(new_balances@ =~= Seq::new(old_c_amounts@.len(), |i: int| (old_c_amounts@[i] - withdraw_c_amounts@[i]) as u128));
        assert forall|j: int| 0 <= j < old_c_amounts@.len() implies !(old_c_amounts@[j] < withdraw_c_amounts@[j]) by {
            assert(new_balances@[j] == old_c_amounts@[j] - withdraw_c_amounts@[j]);
        }
        assert(subtracted_balances(old_c_amounts@, withdraw_c_amounts@) == Some(new_balances@));
        let d_1 = match self.compute_d_ex(&new_balances) {
            Some(v) => v,
            None => {
                return None;
            },
        };
        // compare ideal token portions from D1 with withdraws, to calculate diff fee.
        if d_0.le(&d_1) {
            return None;
        }
        let adjusted = match Self::adjust_balances(&new_balances, old_c_amounts, &d_0, &d_1, fees) {
            Some(v) => v,
            None => {
                return None;
            },
        };
        let d_2 = match self.compute_d_ex(&adjusted) {
            Some(v) => v,
            None => {
                return None;
            },
        };
        let loss = match d_0.checked_sub(&d_2) {
            Some(v) => v,
            None => {
                return None;
            },
        };
        let burn_shares = match Self::compute_share(pool_token_supply, &loss, &d_0) {
            Some(v) => v,
            None => {
                return None;
            },
        };
        let diff_shares = match Self::compute_share(pool_token_supply, &d_0.sub(&d_1), &d_0) {
            Some(v) => v,
            None => {
                return None;
            },
        };
        match burn_shares.checked_sub(diff_shares) {
            Some(fee_part) => Some((burn_shares, fee_part)),
            None => None,
        }
    }
}

/// A swap keeps every unit of the destination coin accounted for: what stays in the pool,
/// what the trader receives and what the admin takes add up to the balance before, and the
/// source balance grows by exactly the input.
pub proof fn lemma_swap_conserves(
    amp: Option<nat>,
    ix: int,
    x_in: nat,
    iy: int,
    cs: Seq<u128>,
    trade_fee: nat,
    admin_fee: nat,
)
    requires
        spec_swap_to(amp, ix, x_in, iy, cs, trade_fee, admin_fee) is Some,
    ensures
        ({
            let r = spec_swap_to(amp, ix, x_in, iy, cs, trade_fee, admin_fee)->0;
            &&& r.new_destination_amount + r.amount_swapped + r.admin_fee == cs[iy]
            &&& r.new_source_amount == cs[ix] + x_in
            &&& admin_fee <= 10_000 ==> r.admin_fee <= r.fee
        }),
{
    let y = spec_compute_y(amp, (x_in + cs[ix]) as nat, cs, ix, iy)->0;
    let dy0 = (cs[iy] - y) as nat;
    let dy = if dy0 > 0 { (dy0 - 1) as nat } else { 0 };
    let fee = spec_bps_of(dy, trade_fee)->0;
    let admin = spec_bps_of(fee, admin_fee)->0;
    assert(dy <= cs[iy]);
    assert(admin <= fee * admin_fee) by {
        lemma_div_is_ordered_by_denominator((fee * admin_fee) as int, 1, 10_000);
    }
    if admin_fee <= 10_000 {
        lemma_mul_inequality(admin_fee as int, 10_000, fee as int);
        lemma_mul_is_commutative(admin_fee as int, fee as int);
        lemma_div_is_ordered((fee * admin_fee) as int, (fee * 10_000) as int, 10_000);
        lemma_div_by_multiple(fee as int, 10_000);
    }
}

/// While a ramp runs, the amplification lies between its initial and its target value.
pub proof fn lemma_amp_between(initial: nat, target: nat, current: nat, start: nat, stop: nat)
    requires
        spec_amp_factor(initial, target, current, start, stop) is Some,
    ensures
        ({
            let a = spec_amp_factor(initial, target, current, start, stop)->0;
            &&& initial <= target ==> initial <= a <= target
            &&& target <= initial ==> target <= a <= initial
        }),
{
    if current < stop {
        let range = if target >= initial { (target - initial) as nat } else { (initial - target) as nat };
        let dt = (current - start) as nat;
        let tr = (stop - start) as nat;
        lemma_mul_inequality(dt as int, tr as int, range as int);
        lemma_mul_is_commutative(dt as int, range as int);
        lemma_mul_is_commutative(tr as int, range as int);
        lemma_div_is_ordered((range * dt) as int, (range * tr) as int, tr as int);
        lemma_div_by_multiple(range as int, tr as int);
    }
}

} // verus!
