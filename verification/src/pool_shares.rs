//! What pools share: finding a token in a pool, and the ledger of liquidity shares.
use crate::errors::ExchangeError;
use crate::utils::{add_to_collection, is_isqrt};
use vstd::hash_map::StringHashMap;
use vstd::prelude::*;

verus! {

/// `i` is the first position of token `t` in `ids`.
pub open spec fn is_first_index(ids: Seq<String>, t: Seq<char>, i: int) -> bool {
    &&& 0 <= i < ids.len()
    &&& ids[i]@ == t
    &&& forall|j: int| 0 <= j < i ==> ids[j]@ != t
}

/// Token `t` is among `ids`.
pub open spec fn has_token(ids: Seq<String>, t: Seq<char>) -> bool {
    exists|i: int| 0 <= i < ids.len() && ids[i]@ == t
}

/// The first position of token `t` in `ids`, where it is there.
pub open spec fn token_pos(ids: Seq<String>, t: Seq<char>) -> int {
    choose|i: int| is_first_index(ids, t, i)
}

/// The first position is unique.
pub proof fn lemma_first_index_unique(ids: Seq<String>, t: Seq<char>, i: int)
    requires
        is_first_index(ids, t, i),
    ensures
        token_pos(ids, t) == i,
{
    let k = token_pos(ids, t);
    assert(is_first_index(ids, t, k));
    if k < i {
        assert(ids[k]@ != t);
    }
    if i < k {
        assert(ids[i]@ != t);
    }
}

/// Returns the first position of the token in the list.
pub fn find_token(ids: &Vec<String>, token_id: &String) -> (r: Option<usize>)
    ensures
        match r {
            Some(i) => is_first_index(ids@, token_id@, i as int) && token_pos(ids@, token_id@) == i,
            None => !has_token(ids@, token_id@),
        },
{
    let mut i: usize = 0;
    while i < ids.len()
        invariant
            i <= ids.len(),
            forall|j: int| 0 <= j < i ==> ids@[j]@ != token_id@,
        decreases ids.len() - i,
    {
        if ids[i] == *token_id {
            proof {
                lemma_first_index_unique(ids@, token_id@, i as int);
            }
            return Some(i);
        }
        i = i + 1;
    }
    None
}

/// The balance of an account in a ledger: zero when it has no entry.
pub open spec fn balance_in(m: Map<Seq<char>, u128>, k: Seq<char>) -> nat {
    if m.contains_key(k) {
        m[k] as nat
    } else {
        0
    }
}

/// The ledger after minting `amount` to `k`; minting nothing leaves it as it is.
pub open spec fn minted(m: Map<Seq<char>, u128>, k: Seq<char>, amount: nat) -> Map<Seq<char>, u128> {
    if amount == 0 {
        m
    } else {
        m.insert(k, (balance_in(m, k) + amount) as u128)
    }
}

/// Credits `shares` to an account and to the total supply.
pub fn mint_shares(
    shares: &mut StringHashMap<u128>,
    total: &mut u128,
    account_id: &String,
    amount: u128,
)
    requires
        *old(total) + amount <= u128::MAX,
        balance_in(old(shares)@, account_id@) + amount <= u128::MAX,
    ensures
        final(shares)@ == minted(old(shares)@, account_id@, amount as nat),
        *final(total) == *old(total) + amount,
{
    if amount == 0 {
        return;
    }
    *total = *total + amount;
    add_to_collection(shares, account_id, amount);
}

/// Registers an account with a zero balance.
pub fn share_register(shares: &mut StringHashMap<u128>, account_id: &String) -> (r: Result<(), ExchangeError>)
    ensures
        old(shares)@.contains_key(account_id@) ==> r == Err::<(), ExchangeError>(ExchangeError::LpAlreadyRegistered) && final(shares)@ == old(shares)@,
        !old(shares)@.contains_key(account_id@) ==> r is Ok && final(shares)@ == old(shares)@.insert(account_id@, 0),
{
    if shares.contains_key(account_id.as_str()) {
        return Err(ExchangeError::LpAlreadyRegistered);
    }
    shares.insert(account_id.clone(), 0);
    Ok(())
}

/// The ledger after moving `amount` from `s` to `d`: the source is debited first, then the
/// destination credited with its balance at that point.
pub open spec fn transferred(m: Map<Seq<char>, u128>, s: Seq<char>, d: Seq<char>, amount: nat) -> Map<Seq<char>, u128> {
    let m1 = m.insert(s, (m[s] - amount) as u128);
    m1.insert(d, (m1[d] + amount) as u128)
}

/// Moves shares between two registered accounts. Fails where the sender has no entry, has
/// too few shares, the receiver has no entry, or the receiver's balance would overflow.
pub fn share_transfer(
    shares: &mut StringHashMap<u128>,
    sender_id: &String,
    receiver_id: &String,
    amount: u128,
    missing_sender: ExchangeError,
    short_sender: ExchangeError,
) -> (r: Result<(), ExchangeError>)
    ensures
        !old(shares)@.contains_key(sender_id@) ==> r == Err::<(), ExchangeError>(missing_sender),
        old(shares)@.contains_key(sender_id@) && old(shares)@[sender_id@] < amount ==> r == Err::<(), ExchangeError>(short_sender),
        old(shares)@.contains_key(sender_id@) && old(shares)@[sender_id@] >= amount && !old(shares)@.contains_key(receiver_id@) ==> r == Err::<(), ExchangeError>(ExchangeError::LpNotRegistered),
        old(shares)@.contains_key(sender_id@) && old(shares)@[sender_id@] >= amount && old(shares)@.contains_key(receiver_id@) && sender_id@ != receiver_id@ && old(shares)@[receiver_id@] + amount > u128::MAX ==> r == Err::<(), ExchangeError>(ExchangeError::ArithmeticOverflow),
        r is Ok <==> old(shares)@.contains_key(sender_id@) && old(shares)@[sender_id@] >= amount && old(shares)@.contains_key(receiver_id@) && (sender_id@ == receiver_id@ || old(shares)@[receiver_id@] + amount <= u128::MAX),
        r is Ok ==> final(shares)@ == transferred(old(shares)@, sender_id@, receiver_id@, amount as nat),
        r is Err ==> final(shares)@ == old(shares)@,
{
    let balance = match shares.get(sender_id.as_str()) {
        Some(v) => *v,
        None => {
            return Err(missing_sender);
        },
    };
    if balance < amount {
        return Err(short_sender);
    }
    let balance_out = match shares.get(receiver_id.as_str()) {
        Some(v) => *v,
        None => {
            return Err(ExchangeError::LpNotRegistered);
        },
    };
    let same = *sender_id == *receiver_id;
    if !same && balance_out > u128::MAX - amount {
        return Err(ExchangeError::ArithmeticOverflow);
    }
    shares.insert(sender_id.clone(), balance - amount);
    let balance_out = match shares.get(receiver_id.as_str()) {
        Some(v) => *v,
        None => {
            return Err(ExchangeError::LpNotRegistered);
        },
    };
    shares.insert(receiver_id.clone(), balance_out + amount);
    Ok(())
}

/// A transfer between two distinct accounts keeps the sum of their balances and every other
/// balance.
pub proof fn lemma_transfer_conserves(m: Map<Seq<char>, u128>, s: Seq<char>, d: Seq<char>, amount: nat)
    requires
        m.contains_key(s),
        m.contains_key(d),
        s != d,
        m[s] >= amount,
        m[d] + amount <= u128::MAX,
    ensures
        balance_in(transferred(m, s, d, amount), s) + balance_in(transferred(m, s, d, amount), d) == balance_in(m, s) + balance_in(m, d),
        forall|k: Seq<char>| k != s && k != d ==> #[trigger] balance_in(transferred(m, s, d, amount), k) == balance_in(m, k),
{
}

/// The integer square root, as a function.
pub open spec fn isqrt(v: nat) -> nat {
    choose|r: nat| is_isqrt(r, v)
}

/// Squares grow with their roots.
proof fn lemma_sq_lt(a: nat, b: nat)
    requires
        a < b,
    ensures
        a * a < b * b,
        (a + 1) * (a + 1) <= b * b,
{
    assert((a + 1) * (a + 1) <= b * b) by (nonlinear_arith)
        requires
            a + 1 <= b,
    ;
    assert(a * a < (a + 1) * (a + 1)) by (nonlinear_arith);
}

/// The integer square root is unique, and `isqrt` names it.
pub proof fn lemma_isqrt_unique(r: nat, v: nat)
    requires
        is_isqrt(r, v),
    ensures
        isqrt(v) == r,
{
    let s = isqrt(v);
    assert(is_isqrt(s, v));
    if s < r {
        lemma_sq_lt(s, r);
    }
    if r < s {
        lemma_sq_lt(r, s);
    }
}

/// The integer square root does not decrease as its argument grows.
pub proof fn lemma_isqrt_monotonic(r1: nat, v1: nat, r2: nat, v2: nat)
    requires
        is_isqrt(r1, v1),
        is_isqrt(r2, v2),
        v1 <= v2,
    ensures
        r1 <= r2,
{
    if r2 < r1 {
        lemma_sq_lt(r2, r1);
    }
}

} // verus!
