//! Implementation of simple pool, that maintains constant product between balances of all the tokens.
//! Similar in design to "Uniswap".
//! Liquidity providers when depositing receive shares, that can be later burnt to withdraw pool's tokens in proportion.
use crate::errors::ExchangeError;
use crate::pool_shares::{
    balance_in, find_token, has_token, is_first_index, isqrt, lemma_isqrt_monotonic,
    lemma_isqrt_unique, mint_shares, minted, share_register, share_transfer, token_pos,
    transferred,
};
use crate::u256::{U256, u256_max};
use crate::utils::{integer_sqrt, is_isqrt, SwapVolume, FEE_DIVISOR, INIT_SHARES_SUPPLY};
use vstd::arithmetic::div_mod::*;
use vstd::arithmetic::mul::*;
use vstd::hash_map::StringHashMap;
use vstd::prelude::*;

verus! {

/// Most tokens a simple pool holds.
pub const MAX_NUM_TOKENS: usize = 2;

/// A constant-product pool.
pub struct SimplePool {
    /// List of tokens in the pool.
    pub token_account_ids: Vec<String>,
    /// How much of each token the pool holds.
    pub amounts: Vec<u128>,
    /// Volumes accumulated by this pool.
    pub volumes: Vec<SwapVolume>,
    /// Fee charged for swap (gets divided by FEE_DIVISOR).
    pub total_fee: u32,
    /// Portion of the fee going to exchange.
    pub exchange_fee: u32,
    /// Portion of the fee going to referral.
    pub referral_fee: u32,
    /// Shares of the pool by liquidity providers.
    pub shares: StringHashMap<u128>,
    /// Total number of shares.
    pub shares_total_supply: u128,
}

/// Tokens out for `amount_in` of a token the pool holds `in_bal` of, against `out_bal` of the
/// other, after the fee: `a * out / (10000 * in + a)` with `a = amount_in * (10000 - fee)`.
pub open spec fn spec_get_return(amount_in: nat, in_bal: nat, out_bal: nat, total_fee: nat) -> nat {
    let a = amount_in * (10_000 - total_fee) as nat;
    a * out_bal / (10_000 * in_bal + a)
}

/// Whether the product in `spec_get_return` fits in 256 bits.
pub open spec fn get_return_fits(amount_in: nat, out_bal: nat, total_fee: nat) -> bool {
    amount_in * (10_000 - total_fee) as nat * out_bal <= u256_max()
}

/// A swap at the fee never lowers the product of the two balances.
pub proof fn lemma_swap_keeps_product(amount_in: nat, in_bal: nat, out_bal: nat, total_fee: nat)
    requires
        total_fee < 10_000,
        in_bal > 0,
    ensures
        spec_get_return(amount_in, in_bal, out_bal, total_fee) <= out_bal,
        (in_bal + amount_in) * (out_bal - spec_get_return(amount_in, in_bal, out_bal, total_fee))
            >= in_bal * out_bal,
{
    let a = amount_in * (10_000 - total_fee) as nat;
    let den = 10_000 * in_bal + a;
    let out = a * out_bal / den;
    lemma_fundamental_div_mod((a * out_bal) as int, den as int);
    lemma_mod_bound((a * out_bal) as int, den as int);
    // out * den <= a * out_bal
    assert(out * den <= a * out_bal) by (nonlinear_arith)
        requires
            a * out_bal == den * out + (a * out_bal) % den,
            (a * out_bal) % den >= 0,
    ;
    assert(out <= out_bal) by (nonlinear_arith)
        requires
            out * den <= a * out_bal,
            den > a,
            out >= 0,
            a >= 0,
            out_bal >= 0,
    ;
    // a <= 10000 * amount_in, so out * (10000 in + 10000 amount_in) <= 10000 amount_in out_bal
    assert(a <= 10_000 * amount_in) by (nonlinear_arith)
        requires
            a == amount_in * (10_000 - total_fee),
            total_fee < 10_000,
    ;
    assert(out * (10_000 * in_bal + 10_000 * amount_in) <= 10_000 * amount_in * out_bal) by (nonlinear_arith)
        requires
            out * (10_000 * in_bal + a) <= a * out_bal,
            a <= 10_000 * amount_in,
            out <= out_bal,
            out >= 0,
    ;
    assert((in_bal + amount_in) * (out_bal - out) >= in_bal * out_bal) by (nonlinear_arith)
        requires
            out * (10_000 * in_bal + 10_000 * amount_in) <= 10_000 * amount_in * out_bal,
            out <= out_bal,
    ;
}

/// The smaller of two numbers.
pub open spec fn min_nat(a: nat, b: nat) -> nat {
    if a <= b {
        a
    } else {
        b
    }
}

/// The shares a deposit of `amounts` is fair for, rounded in the pool's favour: the least
/// `(amounts[i] - 1) * supply / pool[i]` over the first `k` tokens, starting from 2^256 - 1.
pub open spec fn fair_supply(amounts: Seq<u128>, pool: Seq<u128>, supply: nat, k: nat) -> nat
    decreases k,
{
    if k == 0 {
        u256_max()
    } else {
        min_nat(
            fair_supply(amounts, pool, supply, (k - 1) as nat),
            (amounts[k - 1] - 1) as nat * supply / (pool[k - 1] as nat),
        )
    }
}

/// The fair supply is at most each token's own bound.
pub proof fn lemma_fair_supply_le(amounts: Seq<u128>, pool: Seq<u128>, supply: nat, k: nat, i: int)
    requires
        0 <= i < k,
    ensures
        fair_supply(amounts, pool, supply, k) <= (amounts[i] - 1) as nat * supply / (pool[i] as nat),
    decreases k,
{
    if i < k - 1 {
        lemma_fair_supply_le(amounts, pool, supply, (k - 1) as nat, i);
    }
}

/// A token's bound on the fair supply fits in 256 bits.
proof fn lemma_bound_fits(a: nat, s: nat, p: nat)
    requires
        1 <= a <= u128::MAX,
        s <= u128::MAX,
        p > 0,
    ensures
        (a - 1) as nat * s / p <= u256_max(),
{
    let b = (a - 1) as nat;
    assert(b * s <= u128::MAX * u128::MAX) by (nonlinear_arith)
        requires
            b <= u128::MAX,
            s <= u128::MAX,
    ;
    assert(u128::MAX * u128::MAX <= u256_max()) by (nonlinear_arith);
    lemma_div_is_ordered_by_denominator(((a - 1) as nat * s) as int, 1, p as int);
}

/// The fair supply of the first `k` tokens, `k > 0`, is the bound of one of them: with
/// `lemma_fair_supply_le`, it is exactly the least `(amounts[i] - 1) * supply / pool[i]`,
/// capped by nothing else. The index of a token that attains it is returned.
pub proof fn lemma_fair_supply_attained(amounts: Seq<u128>, pool: Seq<u128>, supply: nat, k: nat) -> (i: int)
    requires
        0 < k <= amounts.len(),
        k <= pool.len(),
        supply <= u128::MAX,
        forall|j: int| #![trigger amounts[j]] 0 <= j < k ==> amounts[j] > 0 && pool[j] > 0,
    ensures
        0 <= i < k,
        fair_supply(amounts, pool, supply, k) == (amounts[i] - 1) as nat * supply / (pool[i] as nat),
    decreases k,
{
    let t = (amounts[k - 1] - 1) as nat * supply / (pool[k - 1] as nat);
    assert(fair_supply(amounts, pool, supply, 0) == u256_max());
    if k == 1 {
        lemma_bound_fits(amounts[0] as nat, supply, pool[0] as nat);
        0
    } else {
        let j = lemma_fair_supply_attained(amounts, pool, supply, (k - 1) as nat);
        if fair_supply(amounts, pool, supply, (k - 1) as nat) <= t {
            j
        } else {
            (k - 1) as int
        }
    }
}

/// A deposit of `times` each pool balance, plus the unit kept for rounding, is fair for
/// `times` the supply: the fair supply scales with the deposit, however far it exceeds the
/// pool.
pub proof fn lemma_fair_supply_scales(given: Seq<u128>, pool: Seq<u128>, supply: nat, times: nat, k: nat)
    requires
        0 < k <= given.len(),
        k <= pool.len(),
        supply <= u128::MAX,
        forall|j: int| 0 <= j < k ==> #[trigger] pool[j] > 0,
        forall|j: int| 0 <= j < k ==> #[trigger] given[j] == times * pool[j] + 1,
    ensures
        fair_supply(given, pool, supply, k) == times * supply,
    decreases k,
{
    let p = pool[k - 1] as nat;
    assert(given[k - 1] == times * p + 1);
    assert((times * p) * supply / p == times * supply) by {
        assert((times * p) * supply == p * (times * supply)) by (nonlinear_arith);
        lemma_div_multiples_vanish((times * supply) as int, p as int);
    }
    assert(fair_supply(given, pool, supply, 0) == u256_max());
    if k == 1 {
        lemma_bound_fits(given[0] as nat, supply, p);
    } else {
        lemma_fair_supply_scales(given, pool, supply, times, (k - 1) as nat);
    }
}

/// A later deposit of `times` each pool balance, plus one unit each, mints `times` the
/// supply and takes the whole deposit.
pub proof fn lemma_scaled_deposit(p: &SimplePool, given: Seq<u128>, take: Seq<u128>, shares: nat, times: nat)
    requires
        simple_pool_wf(p),
        p.shares_total_supply > 0,
        given.len() > 0,
        deposit_outcome(p, given, take, shares),
        forall|j: int| 0 <= j < given.len() ==> #[trigger] p.amounts@[j] > 0,
        forall|j: int| 0 <= j < given.len() ==> #[trigger] given[j] == times * p.amounts@[j] + 1,
    ensures
        shares == times * p.shares_total_supply,
        take == given,
{
    let s = p.shares_total_supply as nat;
    lemma_fair_supply_scales(given, p.amounts@, s, times, given.len());
    assert forall|j: int| 0 <= j < given.len() implies take[j] == given[j] by {
        let a = p.amounts@[j] as nat;
        assert(take[j] == a * (times * s) / s + 1);
        assert(a * (times * s) / s == times * a) by {
            assert(a * (times * s) == s * (times * a)) by (nonlinear_arith);
            lemma_div_multiples_vanish((times * a) as int, s as int);
        }
    }
    assert(take =~= given);
}

/// A pool amount times a share count within the token's bound, over the supply, stays below
/// the amount given.
pub proof fn lemma_take_below(p: nat, a: nat, s: nat, f: nat)
    requires
        p > 0,
        s > 0,
        a >= 1,
        f <= (a - 1) as nat * s / p,
    ensures
        p * f <= (a - 1) as nat * s,
        p * f / s <= (a - 1) as nat,
{
    let q = (a - 1) as nat * s / p;
    lemma_fundamental_div_mod(((a - 1) as nat * s) as int, p as int);
    lemma_mul_inequality(f as int, q as int, p as int);
    assert(p * f <= p * q) by (nonlinear_arith)
        requires f <= q;
    assert(p * q <= (a - 1) as nat * s) by (nonlinear_arith)
        requires q == (a - 1) as nat * s / p, p > 0;
    lemma_div_is_ordered((p * f) as int, ((a - 1) as nat * s) as int, s as int);
    lemma_div_by_multiple((a - 1) as int, s as int);
}

/// The well-formedness of a simple pool.
pub open spec fn simple_pool_wf(p: &SimplePool) -> bool {
    &&& p.amounts.len() == p.token_account_ids.len()
    &&& p.volumes.len() == p.token_account_ids.len()
    &&& p.total_fee < FEE_DIVISOR
    &&& p.exchange_fee + p.referral_fee <= p.total_fee
}

/// The pool after a deposit taking `take[i]` of each token and minting `shares` to `sender`.
pub open spec fn after_deposit(
    p: &SimplePool,
    fp: &SimplePool,
    sender: Seq<char>,
    take: Seq<u128>,
    shares: nat,
) -> bool {
    &&& fp.token_account_ids@ == p.token_account_ids@
    &&& fp.volumes@ == p.volumes@
    &&& fp.total_fee == p.total_fee
    &&& fp.exchange_fee == p.exchange_fee
    &&& fp.referral_fee == p.referral_fee
    &&& fp.amounts@.len() == p.amounts@.len()
    &&& forall|i: int| 0 <= i < p.amounts@.len() ==> #[trigger] fp.amounts@[i] == p.amounts@[i] + take[i]
    &&& fp.shares@ == minted(p.shares@, sender, shares)
    &&& fp.shares_total_supply == p.shares_total_supply + shares
}

/// What the pool makes of a deposit of `given`, every amount given being positive: the first
/// deposit takes every amount as given and mints `INIT_SHARES_SUPPLY`; a later one mints the
/// fair supply (the least `(given[i] - 1) * supply / pool[i]`) and takes
/// `pool[i] * fair / supply + 1` of each token.
pub open spec fn deposit_outcome(p: &SimplePool, given: Seq<u128>, take: Seq<u128>, shares: nat) -> bool {
    &&& given.len() == p.token_account_ids@.len()
    &&& take.len() == given.len()
    &&& shares > 0
    &&& forall|i: int| 0 <= i < given.len() ==> given[i] > 0
    &&& p.shares_total_supply == 0 ==> shares == INIT_SHARES_SUPPLY && take == given
    &&& p.shares_total_supply > 0 ==> {
        let fair = fair_supply(given, p.amounts@, p.shares_total_supply as nat, given.len());
        &&& shares == fair
        &&& forall|i: int| 0 <= i < given.len() ==> #[trigger] take[i] == p.amounts@[i] as nat * fair / (p.shares_total_supply as nat) + 1
    }
}

/// Whether a later deposit of `given` into `p`, by `sender`, goes through: every amount
/// given and every pool amount positive, a positive fair supply within 128 bits, and every
/// new pool amount, the supply and the sender's shares within 128 bits.
pub open spec fn later_deposit_ok(p: &SimplePool, given: Seq<u128>, sender: Seq<char>) -> bool {
    let s = p.shares_total_supply as nat;
    let fair = fair_supply(given, p.amounts@, s, given.len());
    &&& forall|i: int| 0 <= i < given.len() ==> given[i] > 0
    &&& forall|i: int| 0 <= i < given.len() ==> p.amounts@[i] > 0
    &&& fair > 0
    &&& fair <= u128::MAX
    &&& forall|i: int| #![trigger p.amounts@[i]] 0 <= i < given.len() ==> p.amounts@[i] + (p.amounts@[i] as nat * fair / s + 1) <= u128::MAX
    &&& s + fair <= u128::MAX
    &&& balance_in(p.shares@, sender) + fair <= u128::MAX
}

/// Whether a simple pool takes a deposit of `given` from `sender`.
pub open spec fn simple_deposit_ok(p: &SimplePool, given: Seq<u128>, sender: Seq<char>) -> bool {
    &&& given.len() == p.token_account_ids@.len()
    &&& p.shares_total_supply == 0 ==> {
        &&& forall|i: int| 0 <= i < given.len() ==> given[i] > 0
        &&& forall|i: int| 0 <= i < given.len() ==> p.amounts@[i] + given[i] <= u128::MAX
        &&& balance_in(p.shares@, sender) + INIT_SHARES_SUPPLY <= u128::MAX
    }
    &&& p.shares_total_supply > 0 ==> later_deposit_ok(p, given, sender)
}

/// What burning `shares` pays of each token: `pool[i] * shares / supply`.
pub open spec fn share_payouts(p: &SimplePool, shares: nat) -> Seq<u128> {
    Seq::new(p.amounts@.len(), |i: int| (p.amounts@[i] as nat * shares / (p.shares_total_supply as nat)) as u128)
}

/// Whether `sender` can burn `shares` of the pool: it holds them, the supply covers them, and
/// every token's payout meets its minimum.
pub open spec fn simple_remove_ok(p: &SimplePool, sender: Seq<char>, shares: nat, mins: Seq<u128>) -> bool {
    &&& p.shares@.contains_key(sender)
    &&& p.shares@[sender] >= shares
    &&& 0 < p.shares_total_supply
    &&& shares <= p.shares_total_supply
    &&& forall|i: int| 0 <= i < p.amounts@.len() ==> #[trigger] (p.amounts@[i] as nat * shares / (p.shares_total_supply as nat)) >= mins[i]
}

/// The pool after `sender` burnt `shares` for `out`, `pool[i] * shares / supply` of each
/// token, each at least its minimum.
pub open spec fn simple_removed(p: &SimplePool, fp: &SimplePool, sender: Seq<char>, shares: nat, mins: Seq<u128>, out: Seq<u128>) -> bool {
    &&& p.shares@.contains_key(sender)
    &&& p.shares@[sender] >= shares
    &&& shares <= p.shares_total_supply
    &&& out.len() == p.amounts@.len()
    &&& forall|i: int| 0 <= i < out.len() ==> #[trigger] out[i] == p.amounts@[i] as nat * shares / (p.shares_total_supply as nat)
    &&& forall|i: int| 0 <= i < out.len() ==> #[trigger] out[i] >= mins[i]
    &&& forall|i: int| 0 <= i < out.len() ==> #[trigger] fp.amounts@[i] == p.amounts@[i] - out[i]
    &&& fp.amounts@.len() == p.amounts@.len()
    &&& fp.shares_total_supply == p.shares_total_supply - shares
    &&& p.shares@[sender] == shares ==> fp.shares@ == p.shares@.remove(sender)
    &&& p.shares@[sender] > shares ==> fp.shares@ == p.shares@.insert(sender, (p.shares@[sender] - shares) as u128)
    &&& fp.token_account_ids@ == p.token_account_ids@
    &&& fp.volumes@ == p.volumes@
    &&& fp.total_fee == p.total_fee
    &&& fp.exchange_fee == p.exchange_fee
    &&& fp.referral_fee == p.referral_fee
}

/// Whether `p` and `fp` agree in every field.
pub open spec fn same_pool(p: &SimplePool, fp: &SimplePool) -> bool {
    &&& fp.token_account_ids@ == p.token_account_ids@
    &&& fp.amounts@ == p.amounts@
    &&& fp.volumes@ == p.volumes@
    &&& fp.total_fee == p.total_fee
    &&& fp.exchange_fee == p.exchange_fee
    &&& fp.referral_fee == p.referral_fee
    &&& fp.shares@ == p.shares@
    &&& fp.shares_total_supply == p.shares_total_supply
}

/// The swap fee shares minted to a fee receiver: `numerator / (new_inv * total_fee / fee)`.
pub open spec fn fee_shares(numerator: nat, new_inv: nat, total_fee: nat, fee: nat) -> nat {
    numerator / (new_inv * total_fee / fee)
}

/// The text of an optional account id.
pub open spec fn opt_string_view(o: Option<String>) -> Option<Seq<char>> {
    match o {
        Some(v) => Some(v@),
        None => None,
    }
}

/// Whether a swap of `amount_in` of `token_in` for `token_out` goes through in `p`: both
/// tokens in the pool and different, both balances and the amount positive, the return
/// computable and at least the minimum, and every balance, volume, share count and
/// intermediate product within its width.
#[verifier::opaque]
pub open spec fn simple_swap_ok(
    p: &SimplePool,
    token_in: Seq<char>,
    amount_in: nat,
    token_out: Seq<char>,
    min_amount_out: nat,
    exchange_id: Seq<char>,
    referral_id: Option<Seq<char>>,
) -> bool {
    let i = token_pos(p.token_account_ids@, token_in);
    let o = token_pos(p.token_account_ids@, token_out);
    let a = p.amounts@;
    let out = spec_get_return(amount_in, a[i] as nat, a[o] as nat, p.total_fee as nat);
    let new_in = a[i] + amount_in;
    let new_out = a[o] - out;
    let prev_inv = isqrt(a[i] as nat * a[o] as nat);
    let new_inv = isqrt((new_in * new_out) as nat);
    let numerator = ((new_inv - prev_inv) * p.shares_total_supply) as nat;
    let ex = if p.exchange_fee > 0 && numerator > 0 {
        fee_shares(numerator, new_inv, p.total_fee as nat, p.exchange_fee as nat)
    } else {
        0
    };
    let m1 = minted(p.shares@, exchange_id, ex);
    let rf = match referral_id {
        Some(rid) => if p.referral_fee > 0 && numerator > 0 && m1.contains_key(rid) {
            fee_shares(numerator, new_inv, p.total_fee as nat, p.referral_fee as nat)
        } else {
            0
        },
        None => 0,
    };
    &&& has_token(p.token_account_ids@, token_in)
    &&& has_token(p.token_account_ids@, token_out)
    &&& i != o
    &&& a[i] > 0
    &&& a[o] > 0
    &&& amount_in > 0
    &&& get_return_fits(amount_in, a[o] as nat, p.total_fee as nat)
    &&& out >= min_amount_out
    &&& new_in <= u128::MAX
    &&& p.volumes@[i].input + amount_in <= u128::MAX
    &&& p.volumes@[i].output + out <= u128::MAX
    &&& new_inv >= prev_inv
    &&& numerator <= u256_max()
    &&& ex <= u128::MAX
    &&& rf <= u128::MAX
    &&& p.shares_total_supply + ex + rf <= u128::MAX
    &&& balance_in(p.shares@, exchange_id) + ex <= u128::MAX
    &&& match referral_id {
        Some(rid) => balance_in(m1, rid) + rf <= u128::MAX,
        None => true,
    }
}

/// The pool `fp` and the payout `out` after a successful swap of `amount_in` of `token_in`
/// for `token_out` in `p`: the payout is the constant-product return after the fee; the
/// product of the balances never falls; the exchange and a registered referral get new shares
/// for their part of the fee.
pub open spec fn simple_swap_post(
    p: &SimplePool,
    fp: &SimplePool,
    token_in: Seq<char>,
    amount_in: nat,
    token_out: Seq<char>,
    min_amount_out: nat,
    exchange_id: Seq<char>,
    referral_id: Option<Seq<char>>,
    out: nat,
) -> bool {
    let i = token_pos(p.token_account_ids@, token_in);
    let o = token_pos(p.token_account_ids@, token_out);
    let a = p.amounts@;
    let new_in = a[i] + amount_in;
    let new_out = a[o] - out;
    let prev_inv = isqrt(a[i] as nat * a[o] as nat);
    let new_inv = isqrt((new_in * new_out) as nat);
    let numerator = ((new_inv - prev_inv) * p.shares_total_supply) as nat;
    let ex = if p.exchange_fee > 0 && numerator > 0 {
        fee_shares(numerator, new_inv, p.total_fee as nat, p.exchange_fee as nat)
    } else {
        0
    };
    &&& out == spec_get_return(amount_in as nat, a[i] as nat, a[o] as nat, p.total_fee as nat)
    &&& out >= min_amount_out
    &&& i != o
    // the product of the balances never falls
    &&& new_in * new_out >= a[i] * a[o]
    &&& new_inv >= prev_inv
    &&& fp.amounts@ == a.update(i, new_in as u128).update(o, new_out as u128)
    &&& fp.volumes@ == p.volumes@.update(i, (SwapVolume {
        input: (p.volumes@[i].input + amount_in) as u128,
        output: (p.volumes@[i].output + out) as u128,
    }))
    &&& fp.token_account_ids@ == p.token_account_ids@
    &&& match referral_id {
        Some(rid) => {
            let m1 = minted(p.shares@, exchange_id, ex);
            let rf = if p.referral_fee > 0 && numerator > 0 && m1.contains_key(rid) {
                fee_shares(numerator, new_inv, p.total_fee as nat, p.referral_fee as nat)
            } else {
                0
            };
            &&& fp.shares@ == minted(m1, rid, rf)
            &&& fp.shares_total_supply == p.shares_total_supply + ex + rf
        },
        None => {
            &&& fp.shares@ == minted(p.shares@, exchange_id, ex)
            &&& fp.shares_total_supply == p.shares_total_supply + ex
        },
    }
}

impl SimplePool {
    /// A new empty pool of the given tokens and fees; the pool `id` named its storage.
    pub fn new(
        id: u32,
        token_account_ids: Vec<String>,
        total_fee: u32,
        exchange_fee: u32,
        referral_fee: u32,
    ) -> (r: Result<SimplePool, ExchangeError>)
        ensures
            !(total_fee < FEE_DIVISOR && exchange_fee + referral_fee <= total_fee) ==> r == Err::<SimplePool, ExchangeError>(ExchangeError::FeeTooLarge),
            total_fee < FEE_DIVISOR && exchange_fee + referral_fee <= total_fee && token_account_ids.len() == 1 ==> r == Err::<SimplePool, ExchangeError>(ExchangeError::NotEnoughPoolTokens),
            total_fee < FEE_DIVISOR && exchange_fee + referral_fee <= total_fee && token_account_ids.len() > MAX_NUM_TOKENS ==> r == Err::<SimplePool, ExchangeError>(ExchangeError::TooManyTokens),
            r is Ok <==> total_fee < FEE_DIVISOR && exchange_fee + referral_fee <= total_fee && token_account_ids.len() != 1 && token_account_ids.len() <= MAX_NUM_TOKENS,
            r matches Ok(p) ==> {
                &&& simple_pool_wf(&p)
                &&& p.token_account_ids@ == token_account_ids@
                &&& forall|i: int| 0 <= i < p.amounts@.len() ==> p.amounts@[i] == 0
                &&& forall|i: int| 0 <= i < p.volumes@.len() ==> p.volumes@[i] == (SwapVolume { input: 0, output: 0 })
                &&& p.total_fee == total_fee
                &&& p.exchange_fee == exchange_fee
                &&& p.referral_fee == referral_fee
                &&& p.shares@ == Map::<Seq<char>, u128>::empty()
                &&& p.shares_total_supply == 0
            },
    {
        if !(total_fee < FEE_DIVISOR && (exchange_fee as u64 + referral_fee as u64) <= total_fee as u64) {
            return Err(ExchangeError::FeeTooLarge);
        }
        if token_account_ids.len() == 1 {
            return Err(ExchangeError::NotEnoughPoolTokens);
        }
        if token_account_ids.len() > MAX_NUM_TOKENS {
            return Err(ExchangeError::TooManyTokens);
        }
        let n = token_account_ids.len();
        let mut amounts: Vec<u128> = Vec::new();
        let mut volumes: Vec<SwapVolume> = Vec::new();
        let mut i: usize = 0;
        while i < n
            invariant
                i <= n,
                amounts.len() == i,
                volumes.len() == i,
                forall|j: int| 0 <= j < i ==> amounts@[j] == 0,
                forall|j: int| 0 <= j < i ==> volumes@[j] == (SwapVolume { input: 0, output: 0 }),
            decreases n - i,
        {
            amounts.push(0);
            volumes.push(SwapVolume::default_volume());
            i = i + 1;
        }
        Ok(
            SimplePool {
                token_account_ids,
                amounts,
                volumes,
                total_fee,
                exchange_fee,
                referral_fee,
                shares: StringHashMap::new(),
                shares_total_supply: 0,
            },
        )
    }

    /// Register given account with 0 balance in shares.
    /// Storage payment should be checked by caller.
    pub fn share_register(&mut self, account_id: &String) -> (r: Result<(), ExchangeError>)
        ensures
            old(self).shares@.contains_key(account_id@) ==> r == Err::<(), ExchangeError>(ExchangeError::LpAlreadyRegistered) && final(self).shares@ == old(self).shares@,
            !old(self).shares@.contains_key(account_id@) ==> r is Ok && final(self).shares@ == old(self).shares@.insert(account_id@, 0),
            final(self).token_account_ids@ == old(self).token_account_ids@,
            final(self).amounts@ == old(self).amounts@,
            final(self).volumes@ == old(self).volumes@,
            final(self).total_fee == old(self).total_fee,
            final(self).exchange_fee == old(self).exchange_fee,
            final(self).referral_fee == old(self).referral_fee,
            final(self).shares_total_supply == old(self).shares_total_supply,
    {
        share_register(&mut self.shares, account_id)
    }

    /// Transfers shares from sender to receiver.
    pub fn share_transfer(&mut self, sender_id: &String, receiver_id: &String, amount: u128) -> (r: Result<(), ExchangeError>)
        ensures
            !old(self).shares@.contains_key(sender_id@) ==> r == Err::<(), ExchangeError>(ExchangeError::NoShares),
            old(self).shares@.contains_key(sender_id@) && old(self).shares@[sender_id@] < amount ==> r == Err::<(), ExchangeError>(ExchangeError::NotEnoughShares),
            old(self).shares@.contains_key(sender_id@) && old(self).shares@[sender_id@] >= amount && !old(self).shares@.contains_key(receiver_id@) ==> r == Err::<(), ExchangeError>(ExchangeError::LpNotRegistered),
            r is Ok <==> old(self).shares@.contains_key(sender_id@) && old(self).shares@[sender_id@] >= amount && old(self).shares@.contains_key(receiver_id@) && (sender_id@ == receiver_id@ || old(self).shares@[receiver_id@] + amount <= u128::MAX),
            r is Ok ==> final(self).shares@ == transferred(old(self).shares@, sender_id@, receiver_id@, amount as nat),
            r is Err ==> final(self).shares@ == old(self).shares@,
            final(self).token_account_ids@ == old(self).token_account_ids@,
            final(self).amounts@ == old(self).amounts@,
            final(self).volumes@ == old(self).volumes@,
            final(self).total_fee == old(self).total_fee,
            final(self).exchange_fee == old(self).exchange_fee,
            final(self).referral_fee == old(self).referral_fee,
            final(self).shares_total_supply == old(self).shares_total_supply,
    {
        share_transfer(&mut self.shares, sender_id, receiver_id, amount, ExchangeError::NoShares, ExchangeError::NotEnoughShares)
    }

    /// Returns balance of shares for given user.
    pub fn share_balance_of(&self, account_id: &String) -> (r: u128)
        ensures
            r == balance_in(self.shares@, account_id@),
    {
        match self.shares.get(account_id.as_str()) {
            Some(v) => *v,
            None => 0,
        }
    }

    /// Returns total number of shares in this pool.
    pub fn share_total_balance(&self) -> (r: u128)
        ensures
            r == self.shares_total_supply,
    {
        self.shares_total_supply
    }

    /// Returns list of tokens in this pool.
    pub fn tokens(&self) -> (r: &Vec<String>)
        ensures
            r@ == self.token_account_ids@,
    {
        &self.token_account_ids
    }

    /// Returns given pool's total fee.
    pub fn get_fee(&self) -> (r: u32)
        ensures
            r == self.total_fee,
    {
        self.total_fee
    }

    /// Returns volumes of the given pool.
    pub fn get_volumes(&self) -> (r: Vec<SwapVolume>)
        ensures
            r@ == self.volumes@,
    {
        self.volumes.clone()
    }

    /// Adds the amounts of tokens to liquidity pool and returns number of shares that this user receives.
    /// Updates amount to amount kept in the pool.
    ///
    /// Every amount given must be positive. The first deposit takes every amount as given and
    /// mints `INIT_SHARES_SUPPLY`. A later deposit mints the fair supply (the least
    /// `(amounts[i] - 1) * supply / pool[i]`), which must be positive, and takes
    /// `pool[i] * fair / supply + 1` of each token.
    pub fn add_liquidity(&mut self, sender_id: &String, amounts: &mut Vec<u128>) -> (r: Result<u128, ExchangeError>)
        requires
            simple_pool_wf(old(self)),
        ensures
            simple_pool_wf(final(self)),
            old(amounts).len() != old(self).token_account_ids.len() ==> r == Err::<u128, ExchangeError>(ExchangeError::WrongTokenCount),
            r is Err ==> same_pool(old(self), final(self)) && final(amounts)@ == old(amounts)@,
            r matches Ok(shares) ==> deposit_outcome(old(self), old(amounts)@, final(amounts)@, shares as nat)
                && after_deposit(old(self), final(self), sender_id@, final(amounts)@, shares as nat),
            r is Ok <==> simple_deposit_ok(old(self), old(amounts)@, sender_id@),
            old(self).shares_total_supply > 0 && old(amounts).len() == old(self).token_account_ids.len() ==>
                (r is Ok <==> later_deposit_ok(old(self), old(amounts)@, sender_id@)),
            old(self).shares_total_supply > 0 && old(amounts).len() == old(self).token_account_ids.len()
                && (forall|i: int| 0 <= i < old(amounts)@.len() ==> old(self).amounts@[i] > 0)
                && ((exists|i: int| 0 <= i < old(amounts)@.len() && old(amounts)@[i] == 0)
                    || fair_supply(old(amounts)@, old(self).amounts@, old(self).shares_total_supply as nat, old(amounts)@.len()) == 0)
                ==> r == Err::<u128, ExchangeError>(ExchangeError::ZeroAmount),
            old(self).shares_total_supply == 0 && old(amounts).len() == old(self).token_account_ids.len()
                && (exists|i: int| 0 <= i < old(amounts)@.len() && old(amounts)@[i] == 0)
                ==> r == Err::<u128, ExchangeError>(ExchangeError::ZeroAmount),
            old(self).shares_total_supply == 0 && old(amounts).len() == old(self).token_account_ids.len() ==> (r is Ok <==> (forall|i: int| 0 <= i < old(amounts)@.len() ==> old(amounts)@[i] > 0)
                && (forall|i: int| 0 <= i < old(amounts)@.len() ==> old(self).amounts@[i] + old(amounts)@[i] <= u128::MAX)
                && old(self).shares_total_supply + INIT_SHARES_SUPPLY <= u128::MAX && balance_in(old(self).shares@, sender_id@) + INIT_SHARES_SUPPLY <= u128::MAX),
    {
        let n = self.token_account_ids.len();
        if amounts.len() != n {
            return Err(ExchangeError::WrongTokenCount);
        }
        let supply = self.shares_total_supply;
        let mut take: Vec<u128> = Vec::new();
        let shares: u128;
        if supply > 0 {
            let mut fair = U256::max_value();
            let mut i: usize = 0;
            while i < n
                invariant
                    n == self.token_account_ids.len(),
                    n == amounts.len(),
                    simple_pool_wf(self),
                    supply == self.shares_total_supply,
                    supply > 0,
                    i <= n,
                    fair@ == fair_supply(amounts@, self.amounts@, supply as nat, i as nat),
                    forall|j: int| 0 <= j < i ==> amounts@[j] > 0,
                    forall|j: int| 0 <= j < i ==> self.amounts@[j] > 0,
                    *self == *old(self),
                    amounts@ == old(amounts)@,
                decreases n - i,
            {
                if amounts[i] == 0 {
                    return Err(ExchangeError::ZeroAmount);
                }
                if self.amounts[i] == 0 {
                    return Err(ExchangeError::ArithmeticOverflow);
                }
                proof {
                    assert((amounts@[i as int] - 1) as nat * supply as nat <= u128::MAX * u128::MAX) by (nonlinear_arith)
                        requires
                            amounts@[i as int] <= u128::MAX,
                            amounts@[i as int] >= 1,
                            supply <= u128::MAX,
                    ;
                    assert(u128::MAX * u128::MAX <= u256_max()) by (nonlinear_arith);
                }
                let cand = U256::from_u128(amounts[i] - 1).mul(&U256::from_u128(supply)).div(&U256::from_u128(self.amounts[i]));
                if cand.lt(&fair) {
                    fair = cand;
                }
                i = i + 1;
            }
            if fair.is_zero() {
                return Err(ExchangeError::ZeroAmount);
            }
            shares = match fair.to_u128() {
                Some(v) => v,
                None => {
                    return Err(ExchangeError::ArithmeticOverflow);
                },
            };
            let mut i: usize = 0;
            while i < n
                invariant
                    n == self.token_account_ids.len(),
                    n == amounts.len(),
                    simple_pool_wf(self),
                    supply == self.shares_total_supply,
                    supply > 0,
                    i <= n,
                    take.len() == i,
                    *self == *old(self),
                    amounts@ == old(amounts)@,
                    forall|j: int| 0 <= j < n ==> amounts@[j] > 0,
                    forall|j: int| 0 <= j < n ==> self.amounts@[j] > 0,
                    fair@ == fair_supply(amounts@, self.amounts@, supply as nat, n as nat),
                    fair@ == shares,
                    shares > 0,
                    forall|j: int| 0 <= j < i ==> #[trigger] take@[j] == self.amounts@[j] as nat * fair@ / (supply as nat) + 1 && self.amounts@[j] + take@[j] <= u128::MAX,
                decreases n - i,
            {
                proof {
                    lemma_fair_supply_le(amounts@, self.amounts@, supply as nat, n as nat, i as int);
                    lemma_take_below(self.amounts@[i as int] as nat, amounts@[i as int] as nat, supply as nat, fair@);
                    assert(u128::MAX * u128::MAX <= u256_max()) by (nonlinear_arith);
                    assert((amounts@[i as int] - 1) as nat * supply as nat <= u128::MAX * u128::MAX) by (nonlinear_arith)
                        requires
                            amounts@[i as int] <= u128::MAX,
                            amounts@[i as int] >= 1,
                            supply <= u128::MAX,
                    ;
                }
                let amount = match self.amounts_times_fair(i, &fair, supply) {
                    Some(v) => v,
                    None => {
                        return Err(ExchangeError::ArithmeticOverflow);
                    },
                };
                let amount = amount + 1;
                if self.amounts[i] > u128::MAX - amount {
                    return Err(ExchangeError::ArithmeticOverflow);
                }
                take.push(amount);
                i = i + 1;
            }
        } else {
            let mut i: usize = 0;
            while i < n
                invariant
                    n == amounts.len(),
                    n == self.token_account_ids.len(),
                    i <= n,
                    amounts@ == old(amounts)@,
                    *self == *old(self),
                    simple_pool_wf(self),
                    forall|j: int| 0 <= j < i ==> amounts@[j] > 0,
                decreases n - i,
            {
                if amounts[i] == 0 {
                    return Err(ExchangeError::ZeroAmount);
                }
                i = i + 1;
            }
            let mut i: usize = 0;
            while i < n
                invariant
                    n == self.token_account_ids.len(),
                    n == amounts.len(),
                    simple_pool_wf(self),
                    i <= n,
                    take.len() == i,
                    forall|j: int| 0 <= j < n ==> amounts@[j] > 0,
                    *self == *old(self),
                    supply == 0,
                    supply == self.shares_total_supply,
                    amounts@ == old(amounts)@,
                    forall|j: int| 0 <= j < i ==> #[trigger] take@[j] == amounts@[j] && self.amounts@[j] + take@[j] <= u128::MAX,
                decreases n - i,
            {
                if self.amounts[i] > u128::MAX - amounts[i] {
                    return Err(ExchangeError::ArithmeticOverflow);
                }
                take.push(amounts[i]);
                i = i + 1;
            }
            assert(take@ == amounts@);
            shares = INIT_SHARES_SUPPLY;
        }
        if shares == 0 {
            return Err(ExchangeError::ZeroShares);
        }
        if supply > u128::MAX - shares {
            return Err(ExchangeError::ArithmeticOverflow);
        }
        let bal = self.share_balance_of(sender_id);
        if bal > u128::MAX - shares {
            return Err(ExchangeError::ArithmeticOverflow);
        }
        // commit
        let ghost old_amounts = self.amounts@;
        let ghost old_shares = self.shares@;
        let mut i: usize = 0;
        while i < n
            invariant
                n == self.token_account_ids.len(),
                n == amounts.len(),
                n == take.len(),
                old_amounts.len() == n,
                self.amounts.len() == n,
                simple_pool_wf(self),
                self.shares@ == old_shares,
                self.shares_total_supply == supply,
                supply + shares <= u128::MAX,
                balance_in(old_shares, sender_id@) + shares <= u128::MAX,
                self.token_account_ids@ == old(self).token_account_ids@,
                self.volumes@ == old(self).volumes@,
                self.total_fee == old(self).total_fee,
                self.exchange_fee == old(self).exchange_fee,
                self.referral_fee == old(self).referral_fee,
                forall|j: int| 0 <= j < i ==> #[trigger] amounts@[j] == take@[j],
                i <= n,
                forall|j: int| 0 <= j < n ==> old_amounts[j] + take@[j] <= u128::MAX,
                forall|j: int| 0 <= j < i ==> #[trigger] self.amounts@[j] == old_amounts[j] + take@[j],
                forall|j: int| i <= j < n ==> #[trigger] self.amounts@[j] == old_amounts[j],
            decreases n - i,
        {
            let v = self.amounts[i] + take[i];
            self.amounts.set(i, v);
            amounts.set(i, take[i]);
            i = i + 1;
        }
        assert(amounts@ =~= take@);
        mint_shares(&mut self.shares, &mut self.shares_total_supply, sender_id, shares);
        Ok(shares)
    }

    /// `self.amounts[i] * fair / supply` as a 128-bit number.
    fn amounts_times_fair(&self, i: usize, fair: &U256, supply: u128) -> (r: Option<u128>)
        requires
            i < self.amounts.len(),
            supply > 0,
        ensures
            match r {
                Some(v) => v == self.amounts@[i as int] as nat * fair@ / (supply as nat) && self.amounts@[i as int] as nat * fair@ <= u256_max(),
                None => self.amounts@[i as int] as nat * fair@ > u256_max() || self.amounts@[i as int] as nat * fair@ / (supply as nat) > u128::MAX,
            },
    {
        match U256::from_u128(self.amounts[i]).checked_mul(fair) {
            Some(p) => p.div(&U256::from_u128(supply)).to_u128(),
            None => None,
        }
    }

    /// Removes given number of shares from the pool and returns amounts to the parent:
    /// `pool[i] * shares / supply` of each token.
    pub fn remove_liquidity(&mut self, sender_id: &String, shares: u128, min_amounts: Vec<u128>) -> (r: Result<Vec<u128>, ExchangeError>)
        requires
            simple_pool_wf(old(self)),
            min_amounts.len() >= old(self).token_account_ids.len(),
        ensures
            simple_pool_wf(final(self)),
            !old(self).shares@.contains_key(sender_id@) ==> r == Err::<Vec<u128>, ExchangeError>(ExchangeError::NoShares),
            old(self).shares@.contains_key(sender_id@) && old(self).shares@[sender_id@] < shares ==> r == Err::<Vec<u128>, ExchangeError>(ExchangeError::NotEnoughShares),
            r is Err ==> same_pool(old(self), final(self)),
            r matches Ok(out) ==> simple_removed(old(self), final(self), sender_id@, shares as nat, min_amounts@, out@),
            simple_remove_ok(old(self), sender_id@, shares as nat, min_amounts@) ==> r is Ok,
            old(self).shares@.contains_key(sender_id@) && old(self).shares@[sender_id@] >= shares
                && (old(self).shares_total_supply == 0 || shares > old(self).shares_total_supply)
                ==> r == Err::<Vec<u128>, ExchangeError>(ExchangeError::ArithmeticOverflow),
            old(self).shares@.contains_key(sender_id@) && old(self).shares@[sender_id@] >= shares
                && 0 < old(self).shares_total_supply && shares <= old(self).shares_total_supply ==> {
                let meets = forall|i: int| 0 <= i < old(self).amounts@.len()
                    ==> #[trigger] old(self).amounts@[i] as nat * shares as nat / (old(self).shares_total_supply as nat) >= min_amounts@[i];
                &&& meets ==> r is Ok
                &&& !meets ==> r == Err::<Vec<u128>, ExchangeError>(ExchangeError::MinAmount)
            },
    {
        let prev_shares_amount = match self.shares.get(sender_id.as_str()) {
            Some(v) => *v,
            None => {
                return Err(ExchangeError::NoShares);
            },
        };
        if prev_shares_amount < shares {
            return Err(ExchangeError::NotEnoughShares);
        }
        let supply = self.shares_total_supply;
        if supply == 0 || shares > supply {
            return Err(ExchangeError::ArithmeticOverflow);
        }
        let n = self.token_account_ids.len();
        let mut result: Vec<u128> = Vec::new();
        let mut i: usize = 0;
        while i < n
            invariant
                n == self.token_account_ids.len(),
                simple_pool_wf(self),
                min_amounts.len() >= n,
                supply == self.shares_total_supply,
                0 < supply,
                shares <= supply,
                i <= n,
                result.len() == i,
                *self == *old(self),
                old(self).shares@.contains_key(sender_id@),
                old(self).shares@[sender_id@] >= shares,
                forall|j: int| 0 <= j < i ==> #[trigger] result@[j] == self.amounts@[j] as nat * shares as nat / (supply as nat) && result@[j] >= min_amounts@[j] && result@[j] <= self.amounts@[j],
            decreases n - i,
        {
            proof {
                assert(self.amounts@[i as int] as nat * shares as nat <= u128::MAX * u128::MAX) by (nonlinear_arith)
                    requires
                        self.amounts@[i as int] <= u128::MAX,
                        shares <= u128::MAX,
                ;
                assert(u128::MAX * u128::MAX <= u256_max()) by (nonlinear_arith);
                let a = self.amounts@[i as int] as nat;
                assert(a * (shares as nat) / (supply as nat) <= a) by {
                    lemma_mul_inequality(shares as int, supply as int, a as int);
                    lemma_mul_is_commutative(shares as int, a as int);
                    lemma_mul_is_commutative(supply as int, a as int);
                    lemma_div_is_ordered((a * shares) as int, (a * supply) as int, supply as int);
                    lemma_div_by_multiple(a as int, supply as int);
                }
            }
            let amount = U256::from_u128(self.amounts[i]).mul(&U256::from_u128(shares)).div(&U256::from_u128(supply)).as_u128();
            if amount < min_amounts[i] {
                return Err(ExchangeError::MinAmount);
            }
            result.push(amount);
            i = i + 1;
        }
        // commit
        let ghost old_amounts = self.amounts@;
        let mut i: usize = 0;
        while i < n
            invariant
                n == self.token_account_ids.len(),
                n == result.len(),
                old_amounts.len() == n,
                self.amounts.len() == n,
                simple_pool_wf(self),
                self.shares@ == old(self).shares@,
                self.shares_total_supply == supply,
                shares <= supply,
                self.token_account_ids@ == old(self).token_account_ids@,
                self.volumes@ == old(self).volumes@,
                self.total_fee == old(self).total_fee,
                self.exchange_fee == old(self).exchange_fee,
                self.referral_fee == old(self).referral_fee,
                i <= n,
                forall|j: int| 0 <= j < n ==> result@[j] <= old_amounts[j],
                forall|j: int| 0 <= j < i ==> #[trigger] self.amounts@[j] == old_amounts[j] - result@[j],
                forall|j: int| i <= j < n ==> #[trigger] self.amounts@[j] == old_amounts[j],
            decreases n - i,
        {
            let v = self.amounts[i] - result[i];
            self.amounts.set(i, v);
            i = i + 1;
        }
        if prev_shares_amount == shares {
            self.shares.remove(sender_id.as_str());
        } else {
            self.shares.insert(sender_id.clone(), prev_shares_amount - shares);
        }
        self.shares_total_supply = self.shares_total_supply - shares;
        Ok(result)
    }

    /// Returns token index for given pool.
    fn token_index(&self, token_id: &String) -> (r: Result<usize, ExchangeError>)
        ensures
            match r {
                Ok(i) => is_first_index(self.token_account_ids@, token_id@, i as int) && token_pos(self.token_account_ids@, token_id@) == i,
                Err(e) => !has_token(self.token_account_ids@, token_id@) && e == ExchangeError::MissingToken,
            },
    {
        match find_token(&self.token_account_ids, token_id) {
            Some(i) => Ok(i),
            None => Err(ExchangeError::MissingToken),
        }
    }

    /// Returns number of tokens in outcome, given amount.
    /// Tokens are provided as indexes into token list for given pool.
    fn internal_get_return(&self, token_in: usize, amount_in: u128, token_out: usize) -> (r: Result<u128, ExchangeError>)
        requires
            simple_pool_wf(self),
            token_in < self.amounts.len(),
            token_out < self.amounts.len(),
        ensures
            !(self.amounts@[token_in as int] > 0 && self.amounts@[token_out as int] > 0 && token_in != token_out && amount_in > 0) ==> r == Err::<u128, ExchangeError>(ExchangeError::InvalidSwap),
            self.amounts@[token_in as int] > 0 && self.amounts@[token_out as int] > 0 && token_in != token_out && amount_in > 0 ==> {
                if get_return_fits(amount_in as nat, self.amounts@[token_out as int] as nat, self.total_fee as nat) {
                    r == Ok::<u128, ExchangeError>(spec_get_return(amount_in as nat, self.amounts@[token_in as int] as nat, self.amounts@[token_out as int] as nat, self.total_fee as nat) as u128)
                    && spec_get_return(amount_in as nat, self.amounts@[token_in as int] as nat, self.amounts@[token_out as int] as nat, self.total_fee as nat) <= self.amounts@[token_out as int]
                } else {
                    r == Err::<u128, ExchangeError>(ExchangeError::ArithmeticOverflow)
                }
            },
    {
        let in_bal = self.amounts[token_in];
        let out_bal = self.amounts[token_out];
        if !(in_bal > 0 && out_bal > 0 && token_in != token_out && amount_in > 0) {
            return Err(ExchangeError::InvalidSwap);
        }
        proof {
            assert(amount_in as nat * (10_000 - self.total_fee) as nat <= u128::MAX * 10_000) by (nonlinear_arith)
                requires
                    amount_in <= u128::MAX,
                    self.total_fee < 10_000,
            ;
            assert(u128::MAX * 10_000 * 2 <= u256_max()) by (nonlinear_arith);
            assert(10_000 * in_bal as nat <= u128::MAX * 10_000) by (nonlinear_arith)
                requires
                    in_bal <= u128::MAX,
            ;
        }
        let amount_with_fee = U256::from_u128(amount_in).mul(&U256::from_u128((FEE_DIVISOR - self.total_fee) as u128));
        let numerator = match amount_with_fee.checked_mul(&U256::from_u128(out_bal)) {
            Some(v) => v,
            None => {
                return Err(ExchangeError::ArithmeticOverflow);
            },
        };
        let denominator = U256::from_u128(FEE_DIVISOR as u128).mul(&U256::from_u128(in_bal)).add(&amount_with_fee);
        proof {
            lemma_swap_keeps_product(amount_in as nat, in_bal as nat, out_bal as nat, self.total_fee as nat);
        }
        Ok(numerator.div(&denominator).as_u128())
    }

    /// Returns how much token you will receive if swap `token_amount_in` of `token_in` for `token_out`.
    pub fn get_return(&self, token_in: &String, amount_in: u128, token_out: &String) -> (r: Result<u128, ExchangeError>)
        requires
            simple_pool_wf(self),
        ensures
            (!has_token(self.token_account_ids@, token_in@) || !has_token(self.token_account_ids@, token_out@)) ==> r == Err::<u128, ExchangeError>(ExchangeError::MissingToken),
            r matches Ok(v) ==> {
                let i = token_pos(self.token_account_ids@, token_in@);
                let o = token_pos(self.token_account_ids@, token_out@);
                &&& v == spec_get_return(amount_in as nat, self.amounts@[i] as nat, self.amounts@[o] as nat, self.total_fee as nat)
                &&& i != o && amount_in > 0 && self.amounts@[i] > 0 && self.amounts@[o] > 0
            },
    {
        let i = self.token_index(token_in)?;
        let o = self.token_index(token_out)?;
        self.internal_get_return(i, amount_in, o)
    }

    /// Swap `token_amount_in` of `token_in` token into `token_out` and return how much was received.
    /// Assuming that `token_amount_in` was already received from `sender_id`.
    ///
    /// The pool keeps the fee in its balances; the exchange and a registered referral receive
    /// new shares for their part of it, in proportion to how much the square root of the
    /// product of the balances grew.
    pub fn swap(
        &mut self,
        token_in: &String,
        amount_in: u128,
        token_out: &String,
        min_amount_out: u128,
        exchange_id: &String,
        referral_id: &Option<String>,
    ) -> (r: Result<u128, ExchangeError>)
        requires
            simple_pool_wf(old(self)),
        ensures
            simple_pool_wf(final(self)),
            (!has_token(old(self).token_account_ids@, token_in@) || !has_token(old(self).token_account_ids@, token_out@)) ==> r == Err::<u128, ExchangeError>(ExchangeError::MissingToken),
            r is Err ==> same_pool(old(self), final(self)),
            r is Ok <==> simple_swap_ok(old(self), token_in@, amount_in as nat, token_out@, min_amount_out as nat, exchange_id@, opt_string_view(*referral_id)),
            r matches Ok(out) ==> simple_swap_post(old(self), final(self), token_in@, amount_in as nat, token_out@, min_amount_out as nat, exchange_id@, opt_string_view(*referral_id), out as nat),
            final(self).total_fee == old(self).total_fee,
            final(self).exchange_fee == old(self).exchange_fee,
            final(self).referral_fee == old(self).referral_fee,
    {
        proof {
            reveal(simple_swap_ok);
        }
        let in_idx = self.token_index(token_in)?;
        let out_idx = self.token_index(token_out)?;
        let amount_out = self.internal_get_return(in_idx, amount_in, out_idx)?;
        if amount_out < min_amount_out {
            return Err(ExchangeError::MinAmount);
        }
        let in_bal = self.amounts[in_idx];
        let out_bal = self.amounts[out_idx];
        if in_bal > u128::MAX - amount_in {
            return Err(ExchangeError::ArithmeticOverflow);
        }
        let new_in = in_bal + amount_in;
        let new_out = out_bal - amount_out;
        let vol = self.volumes[in_idx];
        if vol.input > u128::MAX - amount_in || vol.output > u128::MAX - amount_out {
            return Err(ExchangeError::ArithmeticOverflow);
        }
        proof {
            assert(in_bal as nat * out_bal as nat <= u128::MAX * u128::MAX) by (nonlinear_arith)
                requires
                    in_bal <= u128::MAX,
                    out_bal <= u128::MAX,
            ;
            assert(new_in as nat * new_out as nat <= u128::MAX * u128::MAX) by (nonlinear_arith)
                requires
                    new_in <= u128::MAX,
                    new_out <= u128::MAX,
            ;
            assert(u128::MAX * u128::MAX < u256_max()) by (nonlinear_arith);
            lemma_swap_keeps_product(amount_in as nat, in_bal as nat, out_bal as nat, self.total_fee as nat);
        }
        let prev_invariant = integer_sqrt(U256::from_u128(in_bal).mul(&U256::from_u128(out_bal)));
        // "Invariant" is by how much the dot product of amounts increased due to fees.
        let new_invariant = integer_sqrt(U256::from_u128(new_in).mul(&U256::from_u128(new_out)));
        proof {
            lemma_isqrt_unique(prev_invariant@, in_bal as nat * out_bal as nat);
            lemma_isqrt_unique(new_invariant@, new_in as nat * new_out as nat);
            lemma_isqrt_monotonic(prev_invariant@, in_bal as nat * out_bal as nat, new_invariant@, new_in as nat * new_out as nat);
        }
        proof {
            assert(new_invariant@ <= u128::MAX) by (nonlinear_arith)
                requires
                    new_invariant@ * new_invariant@ <= new_in as nat * new_out as nat,
                    new_in as nat * new_out as nat <= u128::MAX * u128::MAX,
            {
                if new_invariant@ > u128::MAX {
                    assert(new_invariant@ * new_invariant@ > u128::MAX * u128::MAX) by (nonlinear_arith)
                        requires
                            new_invariant@ > u128::MAX,
                    ;
                }
            }
        }
        // Invariant can not reduce (otherwise loosing balance of the pool and something it broken).
        if new_invariant.lt(&prev_invariant) {
            return Err(ExchangeError::InvariantReduced);
        }
        let growth = new_invariant.sub(&prev_invariant);
        proof {
            if growth@ == 0 {
                lemma_mul_basics(self.shares_total_supply as int);
            }
        }
        let numerator = match growth.checked_mul(&U256::from_u128(self.shares_total_supply)) {
            Some(v) => v,
            None => {
                return Err(ExchangeError::ArithmeticOverflow);
            },
        };
        // Allocate exchange fee as fraction of total fee by issuing LP shares proportionally.
        let ex_shares: u128 = if self.exchange_fee > 0 && !numerator.is_zero() {
            match Self::fee_share(&numerator, &new_invariant, self.total_fee, self.exchange_fee) {
                Some(v) => v,
                None => {
                    return Err(ExchangeError::ArithmeticOverflow);
                },
            }
        } else {
            0
        };
        let ghost m1 = minted(self.shares@, exchange_id@, ex_shares as nat);
        // If there is referral provided and the account already registered LP, allocate it % of LP rewards.
        let ref_shares: u128 = match referral_id {
            Some(rid) => {
                let registered = self.shares.contains_key(rid.as_str()) || (ex_shares > 0 && *rid == *exchange_id);
                assert(registered == m1.contains_key(rid@));
                if self.referral_fee > 0 && !numerator.is_zero() && registered {
                    match Self::fee_share(&numerator, &new_invariant, self.total_fee, self.referral_fee) {
                        Some(v) => v,
                        None => {
                            return Err(ExchangeError::ArithmeticOverflow);
                        },
                    }
                } else {
                    0
                }
            },
            None => 0,
        };
        // every mint must fit
        if self.shares_total_supply > u128::MAX - ex_shares || self.shares_total_supply + ex_shares > u128::MAX - ref_shares {
            return Err(ExchangeError::ArithmeticOverflow);
        }
        let ex_bal = self.share_balance_of(exchange_id);
        if ex_bal > u128::MAX - ex_shares {
            return Err(ExchangeError::ArithmeticOverflow);
        }
        match referral_id {
            Some(rid) => {
                let rb = self.share_balance_of(rid);
                let rb1 = if ex_shares > 0 && *rid == *exchange_id { rb + ex_shares } else { rb };
                if rb1 > u128::MAX - ref_shares {
                    return Err(ExchangeError::ArithmeticOverflow);
                }
            },
            None => {},
        }
        // commit
        self.amounts.set(in_idx, new_in);
        self.amounts.set(out_idx, new_out);
        mint_shares(&mut self.shares, &mut self.shares_total_supply, exchange_id, ex_shares);
        match referral_id {
            Some(rid) => {
                mint_shares(&mut self.shares, &mut self.shares_total_supply, rid, ref_shares);
            },
            None => {},
        }
        // Keeping track of volume per each input traded separately.
        // Reported volume with fees will be sum of `input`, without fees will be sum of `output`.
        self.volumes.set(in_idx, SwapVolume { input: vol.input + amount_in, output: vol.output + amount_out });
        Ok(amount_out)
    }

    /// `numerator / (new_invariant * total_fee / fee)` as a 128-bit number.
    fn fee_share(numerator: &U256, new_invariant: &U256, total_fee: u32, fee: u32) -> (r: Option<u128>)
        requires
            fee > 0,
            fee <= total_fee,
            new_invariant@ >= 1,
            new_invariant@ <= u128::MAX,
        ensures
            match r {
                Some(v) => v == fee_shares(numerator@, new_invariant@, total_fee as nat, fee as nat),
                None => fee_shares(numerator@, new_invariant@, total_fee as nat, fee as nat) > u128::MAX,
            },
    {
        proof {
            assert(new_invariant@ * total_fee <= u128::MAX * u32::MAX) by (nonlinear_arith)
                requires
                    new_invariant@ <= u128::MAX,
                    total_fee <= u32::MAX,
            ;
            assert(u128::MAX * u32::MAX <= u256_max()) by (nonlinear_arith);
            assert(new_invariant@ * total_fee >= fee) by (nonlinear_arith)
                requires
                    new_invariant@ >= 1,
                    total_fee >= fee,
            ;
            lemma_div_is_ordered(fee as int, (new_invariant@ * total_fee) as int, fee as int);
            lemma_div_by_self(fee as int);
        }
        let denominator = new_invariant.mul(&U256::from_u128(total_fee as u128)).div(&U256::from_u128(fee as u128));
        numerator.div(&denominator).to_u128()
    }
}

} // verus!
