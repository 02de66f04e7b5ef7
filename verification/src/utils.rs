//! Shared constants and numeric helpers.
use crate::errors::ExchangeError;
use crate::u256::{U256, u256_max};
use vstd::arithmetic::div_mod::*;
use vstd::arithmetic::mul::*;
use vstd::arithmetic::power::*;
use vstd::hash_map::StringHashMap;
use crate::client_echo_limit::contains_string;
use vstd::prelude::*;

verus! {

/// Attach no deposit.
pub const NO_DEPOSIT: u128 = 0;

/// 10T gas for basic operation
pub const GAS_FOR_BASIC_OP: u64 = 10_000_000_000_000;

/// Gas for a multi-token transfer call.
pub const GAS_FOR_MFT_TRANSFER_CALL: u64 = 25_000_000_000_000;

/// Gas for resolving a multi-token transfer.
pub const GAS_FOR_MFT_RESOLVE_TRANSFER: u64 = 20_000_000_000_000;

/// Gas for a fungible token transfer call.
pub const GAS_FOR_FT_TRANSFER_CALL: u64 = 30_000_000_000_000;

/// Extra gas, in TGas, by default.
pub const DEFAULT_EXTRA_TGAS: u32 = 15;

/// Amount of gas for fungible token transfers, increased to 20T to support AS token contracts.
pub const GAS_FOR_FT_TRANSFER: u64 = 20_000_000_000_000;

/// Gas for unwrapping NEAR.
pub const GAS_FOR_NEAR_WITHDRAW: u64 = 20_000_000_000_000;

/// Call back for Near transfer need extra gas
pub const GAS_FOR_CB_NEAR_TRANSFER: u64 = 10_000_000_000_000;

/// Call back for fungible token transfer.
pub const GAS_FOR_CB_FT_TRANSFER: u64 = 5_000_000_000_000;

/// Fee divisor, allowing to provide fee in bps.
pub const FEE_DIVISOR: u32 = 10_000;

/// Largest admin fee, in bps.
pub const MAX_ADMIN_FEE_BPS: u32 = 8_000;

/// Initial shares supply on deposit of liquidity.
pub const INIT_SHARES_SUPPLY: u128 = 1_000_000_000_000_000_000_000_000;

/// Volume of swap on the given token.
#[derive(Clone, Copy, Debug, PartialEq, Eq, Structural)]
pub struct SwapVolume {
    pub input: u128,
    pub output: u128,
}

impl SwapVolume {
    /// No volume yet.
    pub fn default_volume() -> (r: SwapVolume)
        ensures
            r.input == 0 && r.output == 0,
    {
        SwapVolume { input: 0, output: 0 }
    }
}

/// `r` is the integer square root of `v`: the largest number whose square does not exceed `v`.
pub open spec fn is_isqrt(r: nat, v: nat) -> bool {
    r * r <= v && v < (r + 1) * (r + 1)
}

/// (x + y)^2 exceeds 4xy by a square.
proof fn lemma_square_gap(x: int, y: int)
    ensures
        (x + y) * (x + y) >= 4 * x * y,
{
    assert((x + y) * (x + y) == 4 * x * y + (x - y) * (x - y)) by (nonlinear_arith);
    assert((x - y) * (x - y) >= 0) by (nonlinear_arith);
}

/// One Newton step from `g` lands on or above the square root of `v`.
proof fn lemma_newton_step_above(v: nat, g: nat)
    requires
        g >= 1,
    ensures
        ((v / g + g) / 2 + 1) * ((v / g + g) / 2 + 1) > v,
{
    let q = v / g;
    let h = (q + g) / 2;
    lemma_fundamental_div_mod(v as int, g as int);
    lemma_mod_bound(v as int, g as int);
    lemma_fundamental_div_mod((q + g) as int, 2);
    lemma_mod_bound((q + g) as int, 2);
    assert(q * g <= v < (q + 1) * g) by (nonlinear_arith)
        requires
            v == g * q + v % g,
            0 <= v % g < g,
    ;
    assert((h + 1) * (h + 1) > v) by (nonlinear_arith)
        requires
            v < (q + 1) * g,
            q + g <= 2 * h + 1,
            h >= 0,
            q >= 0,
            g >= 1,
    {
        lemma_square_gap((q + 1) as int, g as int);
        assert((2 * h + 2) * (2 * h + 2) >= (q + g + 1) * (q + g + 1)) by (nonlinear_arith)
            requires
                q + g + 1 <= 2 * h + 2,
                q + g + 1 >= 0,
        ;
    }
}

/// Below `v`, a Newton step stays within `v`.
proof fn lemma_newton_step_bounded(v: nat, g: nat)
    requires
        1 <= g <= v,
    ensures
        v / g + g <= v + 1,
{
    lemma_fundamental_div_mod(v as int, g as int);
    lemma_mod_bound(v as int, g as int);
    assert(v / g + g <= v + 1) by (nonlinear_arith)
        requires
            v == g * (v / g) + v % g,
            v % g >= 0,
            1 <= g <= v,
            v / g >= 0,
    {
        assert((g - 1) * (v - g) >= 0) by (nonlinear_arith)
            requires
                g >= 1,
                v >= g,
        ;
        assert(g * (v / g) <= g * (v + 1 - g)) by (nonlinear_arith)
            requires
                g * (v / g) <= v,
                (g - 1) * (v - g) >= 0,
        ;
        assert(v / g <= v + 1 - g) by (nonlinear_arith)
            requires
                g * (v / g) <= g * (v + 1 - g),
                g >= 1,
        ;
    }
}

/// Newton's method of integer square root.
pub fn integer_sqrt(value: U256) -> (r: U256)
    requires
        value@ < u256_max(),
    ensures
        is_isqrt(r@, value@),
{
    let v = value;
    let ghost vv = v@;
    let mut guess: U256 = v.add(&U256::one()).half();
    let mut res = v;
    proof {
        assert((vv + 1) / 2 <= vv || vv == 0) by {
            lemma_fundamental_div_mod((vv + 1) as int, 2);
        }
        assert(((vv + 1) / 2 + 1) * ((vv + 1) / 2 + 1) > vv) by (nonlinear_arith)
            requires
                2 * ((vv + 1) / 2) + 1 >= vv + 1,
                (vv + 1) / 2 >= 0,
        {
            assert((2 * ((vv + 1) / 2) + 2) * (2 * ((vv + 1) / 2) + 2) >= (vv + 2) * (vv + 2))
                by (nonlinear_arith)
                requires
                    2 * ((vv + 1) / 2) + 2 >= vv + 2,
                    vv + 2 >= 0,
            ;
        }
        lemma_fundamental_div_mod((vv + 1) as int, 2);
        assert((vv + 1) * (vv + 1) > vv) by (nonlinear_arith);
    }
    while guess.lt(&res)
        invariant
            v@ == vv,
            vv < u256_max(),
            res@ <= vv,
            guess@ <= vv,
            (res@ + 1) * (res@ + 1) > vv,
            (guess@ + 1) * (guess@ + 1) > vv,
            (res@ >= 1 && guess@ == (vv / res@ + res@) / 2) || (res@ == vv && guess@ == (vv + 1)
                / 2),
        decreases res@,
    {
        res = guess;
        proof {
            // res >= 1: a zero guess would leave (0 + 1)^2 > v, so v == 0 and no guess is below res
            if res@ == 0 {
                assert(vv == 0) by (nonlinear_arith)
                    requires
                        res@ == 0,
                        (res@ + 1) * (res@ + 1) > vv,
                ;
            }
            lemma_newton_step_bounded(vv, res@);
            lemma_newton_step_above(vv, res@);
            lemma_fundamental_div_mod((vv / res@ + res@) as int, 2);
        }
        let step = v.div(&guess).add(&guess);
        guess = step.half();
    }
    proof {
        if res@ >= 1 && guess@ == (vv / res@ + res@) / 2 {
            lemma_fundamental_div_mod(vv as int, res@ as int);
            lemma_fundamental_div_mod((vv / res@ + res@) as int, 2);
            assert(res@ * res@ <= vv) by (nonlinear_arith)
                requires
                    vv / res@ >= res@,
                    res@ * (vv / res@) <= vv,
                    res@ >= 1,
            ;
        } else {
            lemma_fundamental_div_mod((vv + 1) as int, 2);
            assert(res@ * res@ <= vv) by (nonlinear_arith)
                requires
                    res@ == vv,
                    vv <= 1,
            ;
        }
    }
    res
}

/// `a * num / denom`, computed without intermediate overflow; the result must fit in 128 bits.
pub fn u128_ratio(a: u128, num: u128, denom: u128) -> (r: u128)
    requires
        denom > 0,
        (a as nat * num as nat) / (denom as nat) <= u128::MAX,
    ensures
        r == (a as nat * num as nat) / (denom as nat),
{
    proof {
        assert(a * num <= u128::MAX * u128::MAX) by (nonlinear_arith)
            requires
                a <= u128::MAX,
                num <= u128::MAX,
        ;
        assert(u128::MAX * u128::MAX <= u256_max()) by (nonlinear_arith);
    }
    let p = U256::from_u128(a).mul(&U256::from_u128(num));
    p.div(&U256::from_u128(denom)).as_u128()
}

/// Whole seconds in a nanosecond timestamp, truncated to 32 bits.
pub fn nano_to_sec(nano: u64) -> (r: u32)
    ensures
        r == (nano / 1_000_000_000) % 0x1_0000_0000,
{
    let secs = nano / 1_000_000_000;
    (secs % 0x1_0000_0000) as u32
}

/// Nanoseconds in a timestamp given in seconds.
pub fn to_nano(ts: u32) -> (r: u64)
    ensures
        r == ts * 1_000_000_000,
{
    ts as u64 * 1_000_000_000
}

/// No two entries of `s` are equal.
pub open spec fn no_duplicates(s: Seq<Seq<char>>) -> bool {
    forall|i: int, j: int| 0 <= i < j < s.len() ==> s[i] != s[j]
}

/// The views of a list of strings.
pub open spec fn views_of(v: Seq<String>) -> Seq<Seq<char>> {
    v.map_values(|s: String| s@)
}

/// `list` with the entries of `ids` it lacks appended: the entries are those of either.
pub open spec fn extended(list: Seq<String>, ids: Seq<String>, r: Seq<String>) -> bool {
    &&& list.len() <= r.len()
    &&& r.subrange(0, list.len() as int) == list
    &&& forall|t: Seq<char>| #[trigger] views_of(r).contains(t) <==> views_of(list).contains(t) || views_of(ids).contains(t)
}

/// Appends each of `ids` that `list` does not hold yet, in order.
pub(crate) fn extend_set(list: &mut Vec<String>, ids: &Vec<String>)
    ensures
        extended(old(list)@, ids@, final(list)@),
        no_duplicates(views_of(old(list)@)) ==> no_duplicates(views_of(final(list)@)),
{
    let ghost orig = list@;
    let mut k: usize = 0;
    while k < ids.len()
        invariant
            k <= ids.len(),
            orig.len() <= list@.len(),
            list@.subrange(0, orig.len() as int) == orig,
            no_duplicates(views_of(orig)) ==> no_duplicates(views_of(list@)),
            forall|t: Seq<char>| #[trigger] views_of(list@).contains(t) <==> views_of(orig).contains(t) || views_of(ids@.subrange(0, k as int)).contains(t),
        decreases ids.len() - k,
    {
        let ghost before = list@;
        let ghost id = ids@[k as int]@;
        if !contains_string(list, &ids[k], list.len()) {
            list.push(ids[k].clone());
            assert(list@.subrange(0, orig.len() as int) =~= before.subrange(0, orig.len() as int));
            assert(views_of(list@) =~= views_of(before).push(id));
            proof {
                if no_duplicates(views_of(orig)) {
                    assert forall|i: int, j: int| 0 <= i < j < views_of(list@).len() implies views_of(list@)[i] != views_of(list@)[j] by {
                        if j == before.len() {
                            assert(views_of(before)[i] == before[i]@);
                        }
                    }
                }
            }
        }
        proof {
            assert(views_of(ids@.subrange(0, k + 1)) =~= views_of(ids@.subrange(0, k as int)).push(id));
            assert forall|t: Seq<char>| #[trigger] views_of(list@).contains(t) <==> views_of(orig).contains(t) || views_of(ids@.subrange(0, k + 1)).contains(t) by {
                vstd::seq_lib::lemma_seq_contains_after_push(views_of(ids@.subrange(0, k as int)), id, t);
                if list@.len() > before.len() {
                    vstd::seq_lib::lemma_seq_contains_after_push(views_of(before), id, t);
                } else {
                    assert(list@ == before);
                    if t == id {
                        let j = choose|j: int| 0 <= j < before.len() && #[trigger] before[j]@ == id;
                        assert(views_of(before)[j] == id);
                    }
                }
            }
        }
        k = k + 1;
    }
    assert(ids@.subrange(0, ids@.len() as int) == ids@);
}

/// Checks if there are any duplicates in the given list of tokens: `true` when there are none.
pub fn check_token_duplicates(tokens: &Vec<String>) -> (ok: bool)
    ensures
        ok == no_duplicates(views_of(tokens@)),
{
    let n = tokens.len();
    let mut i: usize = 0;
    while i < n
        invariant
            n == tokens.len(),
            i <= n,
            forall|a: int, b: int| 0 <= a < b < n && a < i ==> tokens@[a]@ != tokens@[b]@,
        decreases n - i,
    {
        let mut j: usize = i + 1;
        while j < n
            invariant
                n == tokens.len(),
                i < n,
                i < j <= n,
                forall|a: int, b: int| 0 <= a < b < n && a < i ==> tokens@[a]@ != tokens@[b]@,
                forall|b: int| i < b < j ==> tokens@[i as int]@ != tokens@[b]@,
            decreases n - j,
        {
            if tokens[i] == tokens[j] {
                assert(views_of(tokens@)[i as int] == views_of(tokens@)[j as int]);
                return false;
            }
            j = j + 1;
        }
        i = i + 1;
    }
    true
}

/// Adds given value to the item stored under the given key, starting from zero.
pub fn add_to_collection(c: &mut StringHashMap<u128>, key: &String, value: u128)
    requires
        old(c)@.contains_key(key@) ==> old(c)@[key@] + value <= u128::MAX,
    ensures
        final(c)@ == old(c)@.insert(
            key@,
            ((if old(c)@.contains_key(key@) {
                old(c)@[key@]
            } else {
                0
            }) + value) as u128,
        ),
{
    let prev_value = match c.get(key.as_str()) {
        Some(v) => *v,
        None => 0,
    };
    c.insert(key.clone(), prev_value + value);
}

/// Adding an amount of a token to the cache and taking the same amount back leaves every
/// amount as it was.
pub proof fn lemma_cache_add_then_sub(c0: TokenCache, c1: TokenCache, c2: TokenCache, token: Seq<char>, amount: u128)
    requires
        c0.amount_of(token) + amount <= u128::MAX,
        c1.0@ == c0.0@.insert(token, (c0.amount_of(token) + amount) as u128),
        amount == 0 ==> c2.0@ == c1.0@,
        amount > 0 && amount < c1.amount_of(token) ==> c2.0@ == c1.0@.insert(token, (c1.amount_of(token) - amount) as u128),
        amount > 0 && amount == c1.amount_of(token) ==> c2.0@ == c1.0@.remove(token),
    ensures
        forall|t: Seq<char>| #[trigger] c2.amount_of(t) == c0.amount_of(t),
{
    assert(c1.amount_of(token) == c0.amount_of(token) + amount);
}

/// Balances of tokens gathered while running a batch of actions.
pub struct TokenCache(pub StringHashMap<u128>);

impl TokenCache {
    /// An empty cache.
    pub fn new() -> (r: TokenCache)
        ensures
            r.0@ == Map::<Seq<char>, u128>::empty(),
    {
        TokenCache(StringHashMap::new())
    }

    /// The amount held for a token, zero when it has none.
    pub open spec fn amount_of(&self, token_id: Seq<char>) -> nat {
        if self.0@.contains_key(token_id) {
            self.0@[token_id] as nat
        } else {
            0
        }
    }

    /// The amount held for a token, zero when it has none.
    pub fn get(&self, token_id: &String) -> (r: u128)
        ensures
            r == self.amount_of(token_id@),
    {
        match self.0.get(token_id.as_str()) {
            Some(v) => *v,
            None => 0,
        }
    }

    /// Adds `amount` of a token.
    pub fn add(&mut self, token_id: &String, amount: u128)
        requires
            old(self).amount_of(token_id@) + amount <= u128::MAX,
        ensures
            final(self).0@ == old(self).0@.insert(
                token_id@,
                (old(self).amount_of(token_id@) + amount) as u128,
            ),
    {
        add_to_collection(&mut self.0, token_id, amount);
    }

    /// Takes `amount` of a token; fails when the cache holds less. A token whose amount
    /// reaches zero leaves the cache.
    pub fn sub(&mut self, token_id: &String, amount: u128) -> (r: Result<(), ExchangeError>)
        ensures
            r is Err <==> amount > 0 && amount > old(self).amount_of(token_id@),
            r is Err ==> r == Err::<(), ExchangeError>(ExchangeError::NotEnoughTokens),
            r is Err ==> final(self).0@ == old(self).0@,
            r is Ok && amount == 0 ==> final(self).0@ == old(self).0@,
            r is Ok && amount > 0 && amount < old(self).amount_of(token_id@) ==> final(self).0@
                == old(self).0@.insert(token_id@, (old(self).amount_of(token_id@) - amount) as u128),
            r is Ok && amount > 0 && amount == old(self).amount_of(token_id@) ==> final(self).0@
                == old(self).0@.remove(token_id@),
    {
        if amount == 0 {
            return Ok(());
        }
        let prev = match self.0.get(token_id.as_str()) {
            Some(v) => *v,
            None => {
                return Err(ExchangeError::NotEnoughTokens);
            },
        };
        if amount > prev {
            return Err(ExchangeError::NotEnoughTokens);
        }
        let remain = prev - amount;
        self.0.remove(token_id.as_str());
        if remain > 0 {
            self.0.insert(token_id.clone(), remain);
            assert(self.0@ =~= old(self).0@.insert(token_id@, remain));
        }
        Ok(())
    }
}

/// The number a big-endian byte string stands for.
pub open spec fn be_value(s: Seq<u8>) -> nat
    decreases s.len(),
{
    if s.len() == 0 {
        0
    } else {
        be_value(s.drop_last()) * 256 + s.last() as nat
    }
}

/// Bytes in a `usize`: where a paired price starts.
pub open spec fn usize_bytes() -> nat {
    (usize::BITS / 8) as nat
}

/// A byte in front weighs `256^len` of what follows.
proof fn lemma_be_value_cons(b: u8, t: Seq<u8>)
    ensures
        be_value(seq![b] + t) == b as nat * pow(256, t.len()) + be_value(t),
    decreases t.len(),
{
    if t.len() == 0 {
        assert(seq![b] + t =~= seq![b]);
        assert(seq![b].drop_last() =~= Seq::<u8>::empty());
        assert(be_value(Seq::<u8>::empty()) == 0);
        assert(be_value(seq![b]) == b);
        lemma_pow0(256);
        assert(b as nat * pow(256, 0) == b as nat) by {
            lemma_mul_basics(b as int);
        }
    } else {
        let u = seq![b] + t;
        let n = t.len();
        assert(u.drop_last() =~= seq![b] + t.drop_last());
        assert(u.last() == t.last());
        lemma_be_value_cons(b, t.drop_last());
        assert(be_value(u) == be_value(u.drop_last()) * 256 + u.last() as nat);
        assert(be_value(t) == be_value(t.drop_last()) * 256 + t.last() as nat);
        lemma_pow_adds(256, (n - 1) as nat, 1);
        lemma_pow1(256);
        let p = pow(256, (n - 1) as nat);
        assert(pow(256, n) == p * 256);
        assert((b as nat * p + be_value(t.drop_last())) * 256 == b as nat * (p * 256) + be_value(t.drop_last()) * 256) by (nonlinear_arith);
    }
}

/// A byte string of length `n` stands for less than `256^n`.
proof fn lemma_be_value_bound(s: Seq<u8>)
    ensures
        be_value(s) < pow(256, s.len()),
    decreases s.len(),
{
    if s.len() == 0 {
        lemma_pow0(256);
    } else {
        lemma_be_value_bound(s.drop_last());
        lemma_pow_adds(256, (s.len() - 1) as nat, 1);
        lemma_pow1(256);
        assert(be_value(s.drop_last()) * 256 + (s.last() as nat) < pow(256, (s.len() - 1) as nat) * 256) by (nonlinear_arith)
            requires
                be_value(s.drop_last()) < pow(256, (s.len() - 1) as nat),
                s.last() < 256,
        ;
    }
}

/// `usize` is as wide as its bytes say, and its values are those below `256^bytes`.
proof fn lemma_usize_width()
    ensures
        usize_bytes() == vstd::layout::size_of::<usize>(),
        usize::MAX as nat == pow(256, usize_bytes()) - 1,
        usize_bytes() == 4 || usize_bytes() == 8,
{
    broadcast use vstd::layout::layout_of_primitives;
    vstd::layout::unsigned_int_max_values();
    assert(vstd::layout::size_of::<usize>() * 8 == usize::BITS);
}

/// The `width` big-endian bytes of `v`.
fn be_bytes(v: usize, width: usize) -> (r: Vec<u8>)
    requires
        v < pow(256, width as nat),
    ensures
        r.len() == width,
        be_value(r@) == v,
{
    let mut out: Vec<u8> = Vec::new();
    let mut k: usize = 0;
    while k < width
        invariant
            k <= width,
            out.len() == k,
            forall|j: int| 0 <= j < k ==> out@[j] == 0,
        decreases width - k,
    {
        out.push(0);
        k = k + 1;
    }
    let mut x = v;
    let mut i = width;
    proof {
        lemma_pow0(256);
        assert(out@.subrange(width as int, width as int) =~= Seq::<u8>::empty());
    }
    while i > 0
        invariant
            i <= width,
            out.len() == width,
            v < pow(256, width as nat),
            x as int == (v as int) / pow(256, (width - i) as nat),
            be_value(out@.subrange(i as int, width as int)) as int == (v as int) % pow(256, (width - i) as nat),
        decreases i,
    {
        let ghost k = (width - i) as nat;
        let ghost pk = pow(256, k);
        proof {
            lemma_pow_positive(256, k);
            lemma_pow_adds(256, k, 1);
            lemma_pow1(256);
        }
        i = i - 1;
        let b = (x % 256) as u8;
        let ghost old_out = out@;
        out.set(i, b);
        assert(out@.subrange(i + 1, width as int) =~= old_out.subrange(i + 1, width as int));
        x = x / 256;
        proof {
            let t = out@.subrange(i + 1, width as int);
            assert(out@.subrange(i as int, width as int) =~= seq![b] + t);
            assert(t.len() == k);
            lemma_be_value_cons(b, t);
            // v % (pk * 256) == pk * ((v / pk) % 256) + v % pk
            lemma_breakdown(v as int, pk, 256);
            lemma_div_denominator(v as int, pk, 256);
            lemma_mul_is_commutative(b as int, pk);
            assert(pow(256, (k + 1) as nat) == pk * 256);
            assert(b as int == ((v as int) / pk) % 256);
            assert(be_value(out@.subrange(i as int, width as int)) == b as nat * pk + be_value(t));
            assert((width - i) as nat == k + 1);
            assert(be_value(t) as int == (v as int) % pk);
            assert((v as int) % (pk * 256) == pk * (((v as int) / pk) % 256) + (v as int) % pk);
        }
    }
    proof {
        lemma_small_mod(v as nat, pow(256, width as nat) as nat);
        assert(out@.subrange(0, width as int) =~= out@);
    }
    out
}

/// Joins two rated prices: the length of the first plus the width of a `usize`, in
/// big-endian bytes, then the first price, then the second.
pub fn pair_rated_price_to_vec_u8(price1: Vec<u8>, price2: Vec<u8>) -> (r: Vec<u8>)
    requires
        price1.len() + usize_bytes() + price2.len() <= usize::MAX,
    ensures
        r@.len() == usize_bytes() + price1@.len() + price2@.len(),
        be_value(r@.subrange(0, usize_bytes() as int)) == price1@.len() + usize_bytes(),
        r@.subrange(usize_bytes() as int, (usize_bytes() + price1@.len()) as int) == price1@,
        r@.subrange((usize_bytes() + price1@.len()) as int, r@.len() as int) == price2@,
{
    proof {
        lemma_usize_width();
    }
    let offset = (usize::BITS / 8) as usize;
    let mut cross_call_result = be_bytes(price1.len() + offset, offset);
    let ghost head = cross_call_result@;
    let mut p1 = price1;
    let mut p2 = price2;
    let ghost s1 = p1@;
    let ghost s2 = p2@;
    cross_call_result.append(&mut p1);
    cross_call_result.append(&mut p2);
    assert(cross_call_result@ == head + s1 + s2);
    assert(cross_call_result@.subrange(0, usize_bytes() as int) =~= head);
    assert(cross_call_result@.subrange(usize_bytes() as int, (usize_bytes() + s1.len()) as int) =~= s1);
    assert(cross_call_result@.subrange((usize_bytes() + s1.len()) as int, cross_call_result@.len() as int) =~= s2);
    cross_call_result
}

/// Where the first price of a paired rated price ends.
pub open spec fn paired_split(v: Seq<u8>) -> nat {
    be_value(v.subrange(0, usize_bytes() as int))
}

/// A copy of `v[from..to]`.
fn copy_range(v: &Vec<u8>, from: usize, to: usize) -> (r: Vec<u8>)
    requires
        from <= to <= v.len(),
    ensures
        r@ == v@.subrange(from as int, to as int),
{
    let mut out: Vec<u8> = Vec::new();
    let mut i = from;
    while i < to
        invariant
            from <= i <= to <= v.len(),
            out@ == v@.subrange(from as int, i as int),
        decreases to - i,
    {
        out.push(v[i]);
        i = i + 1;
        assert(out@ =~= v@.subrange(from as int, i as int));
    }
    out
}

/// The big-endian `usize` at the head of a paired rated price.
fn read_split(pair_rated_price: &Vec<u8>) -> (r: usize)
    requires
        pair_rated_price.len() >= usize_bytes(),
    ensures
        r == paired_split(pair_rated_price@),
{
    proof {
        lemma_usize_width();
    }
    let offset = (usize::BITS / 8) as usize;
    let mut acc: usize = 0;
    let mut i: usize = 0;
    while i < offset
        invariant
            offset == usize_bytes(),
            usize::MAX as nat == pow(256, usize_bytes()) - 1,
            offset <= pair_rated_price.len(),
            i <= offset,
            acc == be_value(pair_rated_price@.subrange(0, i as int)),
        decreases offset - i,
    {
        let ghost pre = pair_rated_price@.subrange(0, i as int);
        let ghost next = pair_rated_price@.subrange(0, i + 1);
        assert(next.drop_last() == pre);
        proof {
            lemma_be_value_bound(next);
            lemma_pow_increases(256, (i + 1) as nat, offset as nat);
        }
        acc = acc * 256 + pair_rated_price[i] as usize;
        i = i + 1;
    }
    acc
}

/// Whether `bytes` has the shape of a paired rated price: a `usize` head whose value
/// lies between the head's width and the whole length.
pub fn is_paired_rated_price(bytes: &Vec<u8>) -> (r: bool)
    ensures
        r == (bytes.len() >= usize_bytes() && usize_bytes() <= paired_split(bytes@) <= bytes.len()),
{
    let offset = (usize::BITS / 8) as usize;
    if bytes.len() < offset {
        return false;
    }
    let end = read_split(bytes);
    offset <= end && end <= bytes.len()
}

/// Splits a paired rated price back into its two prices.
pub fn unpair_rated_price_from_vec_u8(pair_rated_price: &Vec<u8>) -> (r: (Vec<u8>, Vec<u8>))
    requires
        pair_rated_price.len() >= usize_bytes(),
        usize_bytes() <= paired_split(pair_rated_price@) <= pair_rated_price.len(),
    ensures
        r.0@ == pair_rated_price@.subrange(usize_bytes() as int, paired_split(pair_rated_price@) as int),
        r.1@ == pair_rated_price@.subrange(paired_split(pair_rated_price@) as int, pair_rated_price@.len() as int),
{
    let offset = (usize::BITS / 8) as usize;
    let end = read_split(pair_rated_price);
    (copy_range(pair_rated_price, offset, end), copy_range(pair_rated_price, end, pair_rated_price.len()))
}

/// Splitting a joined pair of rated prices gives back the two prices.
pub proof fn lemma_rated_price_round_trip(price1: Seq<u8>, price2: Seq<u8>, paired: Seq<u8>)
    requires
        paired.len() == usize_bytes() + price1.len() + price2.len(),
        be_value(paired.subrange(0, usize_bytes() as int)) == price1.len() + usize_bytes(),
        paired.subrange(usize_bytes() as int, (usize_bytes() + price1.len()) as int) == price1,
        paired.subrange((usize_bytes() + price1.len()) as int, paired.len() as int) == price2,
    ensures
        paired.len() >= usize_bytes(),
        usize_bytes() <= paired_split(paired) <= paired.len(),
        paired.subrange(usize_bytes() as int, paired_split(paired) as int) == price1,
        paired.subrange(paired_split(paired) as int, paired.len() as int) == price2,
{
}

} // verus!
