//! Laws of the stable swap calculator: what the imbalance fee charges a deposit or a
//! withdrawal, and what the solve for one coin's balance reads of the other coins.
use crate::stable_swap::math::{
    added_balances, adjust_balance, adjusted_balances, spec_adjusted_fee, spec_compute_d,
    spec_lp_for_deposit, spec_lp_for_withdraw, subtracted_balances, sum_seq, y_fold,
};
use crate::u256::u256_max;
use vstd::arithmetic::div_mod::*;
use vstd::arithmetic::mul::*;
use vstd::arithmetic::power::*;
use vstd::prelude::*;

verus! {

/// How far `new_i` lies from the ideal balance `d1 * old_i / d0`.
pub open spec fn ideal_distance(new_i: nat, old_i: nat, d0: nat, d1: nat) -> nat {
    let ideal = d1 * old_i / d0;
    if ideal > new_i {
        (ideal - new_i) as nat
    } else {
        (new_i - ideal) as nat
    }
}

/// Whether the imbalance fee rate of a pool of `n` coins can be computed.
pub open spec fn fee_rate_ok(trade_fee: nat, n: nat) -> bool {
    &&& n >= 2
    &&& trade_fee * n <= u32::MAX
    &&& 4 * (n - 1) <= u32::MAX
}

/// Whether every new balance lies within rounding of its ideal balance `d1 * old[i] / d0`:
/// the ideal balance fits, and the fee rate times the distance stays below one unit.
pub open spec fn near_ideal(newb: Seq<u128>, old: Seq<u128>, d0: nat, d1: nat, trade_fee: nat) -> bool {
    forall|i: int|
        #![trigger newb[i], old[i]]
        0 <= i < old.len() ==> {
            &&& d1 * (old[i] as nat) <= u256_max()
            &&& d1 * (old[i] as nat) / d0 <= u128::MAX
            &&& ideal_distance(newb[i] as nat, old[i] as nat, d0, d1) * spec_adjusted_fee(trade_fee, old.len())
                < 10_000
        }
}

/// A balance within rounding of its ideal balance `d1 * old_i / d0` pays no imbalance fee:
/// it is kept whole. In particular a balance equal to its ideal balance is never charged.
pub proof fn lemma_no_fee_near_ideal(new_i: nat, old_i: nat, d0: nat, d1: nat, trade_fee: nat, n: nat)
    requires
        fee_rate_ok(trade_fee, n),
        d0 > 0,
        d1 * old_i <= u256_max(),
        d1 * old_i / d0 <= u128::MAX,
        ideal_distance(new_i, old_i, d0, d1) * spec_adjusted_fee(trade_fee, n) < 10_000,
    ensures
        adjust_balance(new_i, old_i, d0, d1, trade_fee, n) == Some(new_i),
{
    let x = ideal_distance(new_i, old_i, d0, d1) * spec_adjusted_fee(trade_fee, n);
    lemma_basic_div(x as int, 10_000);
}

/// The imbalance fee on a balance is the fee rate of the pool applied to the balance's
/// distance from its ideal balance `d1 * old_i / d0`, in basis points rounded down, and the
/// balance keeps the rest.
pub proof fn lemma_fee_is_rate_of_distance(new_i: nat, old_i: nat, d0: nat, d1: nat, trade_fee: nat, n: nat)
    requires
        adjust_balance(new_i, old_i, d0, d1, trade_fee, n) is Some,
    ensures
        adjust_balance(new_i, old_i, d0, d1, trade_fee, n)->0 == new_i - ideal_distance(new_i, old_i, d0, d1)
            * spec_adjusted_fee(trade_fee, n) / 10_000,
{
}

/// The imbalance fee grows with a balance's distance from its ideal balance, and with
/// nothing else: of two balances of one pool, the one nearer its ideal balance pays no
/// more, and two balances at the same distance pay the same fee, however large they are.
pub proof fn lemma_fee_follows_distance(
    new1: nat,
    old1: nat,
    new2: nat,
    old2: nat,
    d0: nat,
    d1: nat,
    trade_fee: nat,
    n: nat,
)
    requires
        adjust_balance(new1, old1, d0, d1, trade_fee, n) is Some,
        adjust_balance(new2, old2, d0, d1, trade_fee, n) is Some,
        ideal_distance(new1, old1, d0, d1) <= ideal_distance(new2, old2, d0, d1),
    ensures
        new1 - adjust_balance(new1, old1, d0, d1, trade_fee, n)->0
            <= new2 - adjust_balance(new2, old2, d0, d1, trade_fee, n)->0,
{
    let rate = spec_adjusted_fee(trade_fee, n);
    let x1 = ideal_distance(new1, old1, d0, d1);
    let x2 = ideal_distance(new2, old2, d0, d1);
    lemma_mul_inequality(x1 as int, x2 as int, rate as int);
    lemma_div_is_ordered((x1 * rate) as int, (x2 * rate) as int, 10_000);
}

/// Every balance within rounding of its ideal balance comes through the fee unchanged.
proof fn lemma_adjusted_unchanged(newb: Seq<u128>, old: Seq<u128>, d0: nat, d1: nat, trade_fee: nat)
    requires
        newb.len() == old.len(),
        fee_rate_ok(trade_fee, old.len()),
        d0 > 0,
        near_ideal(newb, old, d0, d1, trade_fee),
    ensures
        adjusted_balances(newb, old, d0, d1, trade_fee) == Some(newb),
{
    assert forall|i: int| 0 <= i < newb.len() implies #[trigger] adjust_balance(
        newb[i] as nat,
        old[i] as nat,
        d0,
        d1,
        trade_fee,
        old.len(),
    ) == Some(newb[i] as nat) by {
        lemma_no_fee_near_ideal(newb[i] as nat, old[i] as nat, d0, d1, trade_fee, old.len());
    }
    let adj = Seq::new(
        newb.len(),
        |i: int| adjust_balance(newb[i] as nat, old[i] as nat, d0, d1, trade_fee, old.len())->0 as u128,
    );
    assert(adj =~= newb);
}

/// A deposit that leaves every coin within rounding of its ideal balance `D1 * old_i / D0`
/// (a deposit in proportion to the pool's balances) pays no imbalance fee: it mints
/// `supply * (D1 - D0) / D0` shares, and no part of them goes to the fee.
pub proof fn lemma_balanced_deposit_pays_no_fee(
    amp: Option<nat>,
    dep: Seq<u128>,
    old: Seq<u128>,
    supply: nat,
    trade_fee: nat,
    newb: Seq<u128>,
    d0: nat,
    d1: nat,
)
    requires
        fee_rate_ok(trade_fee, old.len()),
        spec_compute_d(amp, old) == Some(d0),
        added_balances(old, dep) == Some(newb),
        spec_compute_d(amp, newb) == Some(d1),
        0 < d0 < d1,
        near_ideal(newb, old, d0, d1, trade_fee),
        supply * (d1 - d0) <= u256_max(),
        supply * (d1 - d0) as nat / d0 <= u128::MAX,
    ensures
        spec_lp_for_deposit(amp, dep, old, supply, trade_fee) == Some((supply * (d1 - d0) as nat / d0, 0nat)),
{
    lemma_adjusted_unchanged(newb, old, d0, d1, trade_fee);
}

/// A withdrawal that leaves every coin within rounding of its ideal balance `D1 * old_i / D0`
/// (a withdrawal in proportion to the pool's balances) pays no imbalance fee: it burns
/// `supply * (D0 - D1) / D0` shares, and no part of them goes to the fee.
pub proof fn lemma_balanced_withdrawal_pays_no_fee(
    amp: Option<nat>,
    wd: Seq<u128>,
    old: Seq<u128>,
    supply: nat,
    trade_fee: nat,
    newb: Seq<u128>,
    d0: nat,
    d1: nat,
)
    requires
        fee_rate_ok(trade_fee, old.len()),
        spec_compute_d(amp, old) == Some(d0),
        subtracted_balances(old, wd) == Some(newb),
        spec_compute_d(amp, newb) == Some(d1),
        d1 < d0,
        near_ideal(newb, old, d0, d1, trade_fee),
        supply * (d0 - d1) <= u256_max(),
        supply * (d0 - d1) as nat / d0 <= u128::MAX,
    ensures
        spec_lp_for_withdraw(amp, wd, old, supply, trade_fee) == Some((supply * (d0 - d1) as nat / d0, 0nat)),
{
    lemma_adjusted_unchanged(newb, old, d0, d1, trade_fee);
}

/// The sum of the coins of `cs` other than those at `ix` and `iy`.
pub open spec fn others_sum(cs: Seq<u128>, ix: int, iy: int) -> nat
    decreases cs.len(),
{
    if cs.len() == 0 {
        0
    } else if cs.len() - 1 == ix || cs.len() - 1 == iy {
        others_sum(cs.drop_last(), ix, iy)
    } else {
        others_sum(cs.drop_last(), ix, iy) + cs.last() as nat
    }
}

/// The coins other than `ix` and `iy` sum to the whole less those two.
proof fn lemma_others_sum(cs: Seq<u128>, ix: int, iy: int)
    requires
        ix != iy,
        0 <= ix,
        0 <= iy,
    ensures
        others_sum(cs, ix, iy) + (if ix < cs.len() { cs[ix] as nat } else { 0 }) + (if iy < cs.len() {
            cs[iy] as nat
        } else {
            0
        }) == sum_seq(cs),
    decreases cs.len(),
{
    if cs.len() > 0 {
        lemma_others_sum(cs.drop_last(), ix, iy);
    }
}

/// The fold's running sum adds each coin other than `ix` and `iy` once.
proof fn lemma_y_fold_sum(cs: Seq<u128>, ix: int, iy: int, d: nat, c0: nat, s0: nat)
    requires
        y_fold(cs, ix, iy, d, c0, s0) is Some,
    ensures
        (y_fold(cs, ix, iy, d, c0, s0)->0).1 == s0 + others_sum(cs, ix, iy),
    decreases cs.len(),
{
    if cs.len() > 0 {
        lemma_y_fold_sum(cs.drop_last(), ix, iy, d, c0, s0);
    }
}

/// The solve for coin `iy`'s balance reads every other coin by its own balance: the sum it
/// builds is the starting sum plus the balances of all coins but `ix` and `iy`, so it does
/// not change when those balances are permuted.
pub proof fn lemma_y_fold_sums_other_coins(cs: Seq<u128>, ix: int, iy: int, d: nat, c0: nat, s0: nat)
    requires
        0 <= ix < cs.len(),
        0 <= iy < cs.len(),
        ix != iy,
        y_fold(cs, ix, iy, d, c0, s0) is Some,
    ensures
        (y_fold(cs, ix, iy, d, c0, s0)->0).1 == s0 + sum_seq(cs) - cs[ix] - cs[iy],
{
    lemma_y_fold_sum(cs, ix, iy, d, c0, s0);
    lemma_others_sum(cs, ix, iy);
}

/// The product of the coins of `cs` other than those at `ix` and `iy`.
pub open spec fn others_prod(cs: Seq<u128>, ix: int, iy: int) -> nat
    decreases cs.len(),
{
    if cs.len() == 0 {
        1
    } else if cs.len() - 1 == ix || cs.len() - 1 == iy {
        others_prod(cs.drop_last(), ix, iy)
    } else {
        others_prod(cs.drop_last(), ix, iy) * cs.last() as nat
    }
}

/// How many coins of `cs` lie at neither `ix` nor `iy`.
pub open spec fn others_count(cs: Seq<u128>, ix: int, iy: int) -> nat
    decreases cs.len(),
{
    if cs.len() == 0 {
        0
    } else if cs.len() - 1 == ix || cs.len() - 1 == iy {
        others_count(cs.drop_last(), ix, iy)
    } else {
        others_count(cs.drop_last(), ix, iy) + 1
    }
}

/// The solve for coin `iy`'s balance divides by every other coin's own balance: the term it
/// builds, times the product of the balances of all coins but `ix` and `iy`, is at most
/// the starting term times `d` to the power of their number, each division rounding down.
pub proof fn lemma_y_fold_divides_by_other_coins(cs: Seq<u128>, ix: int, iy: int, d: nat, c0: nat, s0: nat)
    requires
        y_fold(cs, ix, iy, d, c0, s0) is Some,
    ensures
        (y_fold(cs, ix, iy, d, c0, s0)->0).0 * others_prod(cs, ix, iy) <= c0 * pow(
            d as int,
            others_count(cs, ix, iy),
        ),
    decreases cs.len(),
{
    if cs.len() == 0 {
        assert(pow(d as int, 0) == 1) by {
            reveal(pow);
        }
    } else {
        lemma_y_fold_divides_by_other_coins(cs.drop_last(), ix, iy, d, c0, s0);
        let idx = cs.len() - 1;
        if idx != ix && idx != iy {
            let c = (y_fold(cs.drop_last(), ix, iy, d, c0, s0)->0).0;
            let pr = others_prod(cs.drop_last(), ix, iy);
            let m = others_count(cs.drop_last(), ix, iy);
            let e = c0 * pow(d as int, m);
            let a = cs.last() as nat;
            let q = c * d / a;
            assert(q * a <= c * d) by {
                lemma_fundamental_div_mod((c * d) as int, a as int);
                lemma_mod_bound((c * d) as int, a as int);
                lemma_mul_is_commutative(q as int, a as int);
            }
            assert(q * (pr * a) <= (c * pr) * d) by (nonlinear_arith)
                requires
                    q * a <= c * d,
            ;
            assert((c * pr) * d <= e * d) by (nonlinear_arith)
                requires
                    c * pr <= e,
            ;
            assert(pow(d as int, m + 1) == d * pow(d as int, m)) by {
                reveal(pow);
            }
            assert(e * d == c0 * pow(d as int, m + 1)) by (nonlinear_arith)
                requires
                    e == c0 * pow(d as int, m),
                    pow(d as int, m + 1) == d * pow(d as int, m),
            ;
            assert((y_fold(cs, ix, iy, d, c0, s0)->0).0 == q);
            assert(others_prod(cs, ix, iy) == pr * a);
            assert(others_count(cs, ix, iy) == m + 1);
        }
    }
}

/// How far the rounding of the solve's divisions can bring its term below the exact value,
/// scaled by the product of the coins divided by: nothing before any division, and each
/// division by a coin adds that product and scales what came before by `d`.
pub open spec fn fold_slack(cs: Seq<u128>, ix: int, iy: int, d: nat) -> nat
    decreases cs.len(),
{
    if cs.len() == 0 {
        0
    } else if cs.len() - 1 == ix || cs.len() - 1 == iy {
        fold_slack(cs.drop_last(), ix, iy, d)
    } else {
        d * fold_slack(cs.drop_last(), ix, iy, d) + others_prod(cs, ix, iy)
    }
}

/// The solve's term is no further below the exact quotient than its rounding allows: the
/// term times the product of the balances of all coins but `ix` and `iy`, plus the slack of
/// the rounding, is at least the starting term times `d` to the power of their number.
pub proof fn lemma_y_fold_rounds_only_down_by_slack(cs: Seq<u128>, ix: int, iy: int, d: nat, c0: nat, s0: nat)
    requires
        y_fold(cs, ix, iy, d, c0, s0) is Some,
    ensures
        (y_fold(cs, ix, iy, d, c0, s0)->0).0 * others_prod(cs, ix, iy) + fold_slack(cs, ix, iy, d)
            >= c0 * pow(d as int, others_count(cs, ix, iy)),
    decreases cs.len(),
{
    if cs.len() == 0 {
        assert(pow(d as int, 0) == 1) by {
            reveal(pow);
        }
    } else {
        lemma_y_fold_rounds_only_down_by_slack(cs.drop_last(), ix, iy, d, c0, s0);
        let idx = cs.len() - 1;
        if idx != ix && idx != iy {
            let c = (y_fold(cs.drop_last(), ix, iy, d, c0, s0)->0).0;
            let pr = others_prod(cs.drop_last(), ix, iy);
            let sl = fold_slack(cs.drop_last(), ix, iy, d);
            let m = others_count(cs.drop_last(), ix, iy);
            let e = c0 * pow(d as int, m);
            let a = cs.last() as nat;
            let q = c * d / a;
            assert(q * a + a > c * d) by {
                lemma_fundamental_div_mod((c * d) as int, a as int);
                lemma_mod_bound((c * d) as int, a as int);
                lemma_mul_is_commutative(q as int, a as int);
            }
            assert(pr * (q * a + a) >= pr * (c * d)) by (nonlinear_arith)
                requires
                    q * a + a > c * d,
            ;
            assert(q * (pr * a) + (d * sl + pr * a) == pr * (q * a + a) + d * sl) by (nonlinear_arith);
            assert(pr * (c * d) + d * sl == d * (c * pr + sl)) by (nonlinear_arith);
            assert(d * (c * pr + sl) >= d * e) by (nonlinear_arith)
                requires
                    c * pr + sl >= e,
            ;
            assert(pow(d as int, m + 1) == d * pow(d as int, m)) by {
                reveal(pow);
            }
            assert(d * e == c0 * pow(d as int, m + 1)) by (nonlinear_arith)
                requires
                    e == c0 * pow(d as int, m),
                    pow(d as int, m + 1) == d * pow(d as int, m),
            ;
            assert((y_fold(cs, ix, iy, d, c0, s0)->0).0 == q);
            assert(others_prod(cs, ix, iy) == pr * a);
            assert(fold_slack(cs, ix, iy, d) == d * sl + pr * a);
            assert(others_count(cs, ix, iy) == m + 1);
        }
    }
}

} // verus!
