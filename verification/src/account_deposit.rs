//! Account deposit is information per user about their balances in the exchange.
use crate::client_echo_limit::{contains_string, list_view};
use crate::contract::Contract;
use crate::event::RunningState;
use crate::utils::views_of;
use crate::errors::ExchangeError;
use crate::shadow_record::{empty_record, shadow_updated, ShadowActions, ShadowRecord};
use vstd::hash_map::{HashMapWithView, StringHashMap};
use vstd::prelude::*;

verus! {

/// Bytes of a stored 128-bit number.
pub const U128_STORAGE: u64 = 16;
/// Bytes of a stored 64-bit number.
pub const U64_STORAGE: u64 = 8;
/// Bytes of a stored 32-bit number.
pub const U32_STORAGE: u64 = 4;
/// max length of account id is 64 bytes. We charge per byte.
pub const ACC_ID_STORAGE: u64 = 64;
/// As a key, 4 bytes length would be added to the head
pub const ACC_ID_AS_KEY_STORAGE: u64 = ACC_ID_STORAGE + 4;
/// Prefix of the key of an account's token entry.
pub const KEY_PREFIX_ACC: u64 = 64;
/// As a collection key, 1 byte for prefix
pub const ACC_ID_AS_CLT_KEY_STORAGE: u64 = ACC_ID_AS_KEY_STORAGE + 1;

/// Storage of an account with no tokens: its key, the version byte, the NEAR amount, the
/// lengths of both token maps and the storage counter.
pub const INIT_ACCOUNT_STORAGE: u64 = ACC_ID_AS_CLT_KEY_STORAGE + 1 + U128_STORAGE + U32_STORAGE + U32_STORAGE + U64_STORAGE;

/// Account deposits information and storage cost.
pub struct Account {
    /// Native NEAR amount sent to the exchange.
    /// Used for storage right now, but in future can be used for trading as well.
    pub near_amount: u128,
    /// Amounts of various tokens deposited to this account, in the layout of older versions.
    pub legacy_tokens: StringHashMap<u128>,
    /// Amounts of various tokens deposited to this account.
    pub tokens: StringHashMap<u128>,
    pub storage_used: u64,
    /// What the account has cast of its shares of each pool, by pool id; a pool with nothing
    /// cast has no entry.
    pub shadow_records: HashMapWithView<u64, ShadowRecord>,
}

/// The shares of pool `pool_id` that the account has cast.
pub open spec fn shadow_of(a: &Account, pool_id: u64) -> ShadowRecord {
    if a.shadow_records@.contains_key(pool_id) { a.shadow_records@[pool_id] } else { empty_record() }
}

/// The balance of a token: the current map first, then the legacy one.
pub open spec fn account_balance(a: &Account, token: Seq<char>) -> Option<u128> {
    if a.tokens@.contains_key(token) {
        Some(a.tokens@[token])
    } else if a.legacy_tokens@.contains_key(token) {
        Some(a.legacy_tokens@[token])
    } else {
        None
    }
}

/// Bytes the account takes in storage.
pub open spec fn storage_bytes(a: &Account) -> nat {
    (INIT_ACCOUNT_STORAGE + a.legacy_tokens@.len() * (ACC_ID_AS_KEY_STORAGE + U128_STORAGE) + a.tokens@.len() * (KEY_PREFIX_ACC + ACC_ID_AS_KEY_STORAGE + U128_STORAGE)) as nat
}

/// The NEAR the account's storage costs at `byte_cost` per byte.
pub open spec fn storage_cost(a: &Account, byte_cost: nat) -> nat {
    storage_bytes(a) * byte_cost
}

/// The balance of a token after a deposit: it moves from the legacy map, where it was, to the
/// current one.
pub open spec fn deposited(a: &Account, fa: &Account, token: Seq<char>, amount: nat) -> bool {
    &&& fa.tokens@ == a.tokens@.insert(token, (match account_balance(a, token) { Some(v) => v as nat, None => 0 } + amount) as u128)
    &&& a.legacy_tokens@.contains_key(token) && !a.tokens@.contains_key(token) ==> fa.legacy_tokens@ == a.legacy_tokens@.remove(token)
    &&& !(a.legacy_tokens@.contains_key(token) && !a.tokens@.contains_key(token)) ==> fa.legacy_tokens@ == a.legacy_tokens@
    &&& fa.near_amount == a.near_amount
    &&& fa.storage_used == a.storage_used
}

/// The balance of a token after a withdrawal of `amount`: it moves from the legacy map,
/// where it was, to the current one.
pub open spec fn withdrawn(a: &Account, fa: &Account, token: Seq<char>, amount: nat) -> bool {
    &&& account_balance(a, token) is Some
    &&& account_balance(a, token)->0 >= amount
    &&& fa.tokens@ == a.tokens@.insert(token, (account_balance(a, token)->0 - amount) as u128)
    &&& a.legacy_tokens@.contains_key(token) && !a.tokens@.contains_key(token) ==> fa.legacy_tokens@ == a.legacy_tokens@.remove(token)
    &&& !(a.legacy_tokens@.contains_key(token) && !a.tokens@.contains_key(token)) ==> fa.legacy_tokens@ == a.legacy_tokens@
    &&& fa.near_amount == a.near_amount
    &&& fa.storage_used == a.storage_used
}

/// Whether `token` is among the first `n` of `tokens`.
pub open spec fn listed(tokens: Seq<String>, token: Seq<char>, n: int) -> bool {
    exists|i: int| 0 <= i < n && #[trigger] tokens[i]@ == token
}

/// The sum of the amounts set against `token` among the first `n` entries.
pub open spec fn listed_total(tokens: Seq<String>, amounts: Seq<u128>, token: Seq<char>, n: int) -> nat
    decreases n,
{
    if n <= 0 {
        0
    } else {
        listed_total(tokens, amounts, token, n - 1) + (if tokens[n - 1]@ == token { amounts[n - 1] as nat } else { 0nat })
    }
}

/// The account after the first `n` amounts were withdrawn, each from its token: every
/// listed token loses the sum set against it, the others keep their balance.
pub open spec fn withdrawn_all(a: &Account, fa: &Account, tokens: Seq<String>, amounts: Seq<u128>, n: int) -> bool {
    &&& forall|t: Seq<char>| #![trigger account_balance(fa, t)] listed(tokens, t, n) ==> {
        &&& account_balance(a, t) is Some
        &&& account_balance(a, t)->0 >= listed_total(tokens, amounts, t, n)
        &&& account_balance(fa, t) == Some((account_balance(a, t)->0 - listed_total(tokens, amounts, t, n)) as u128)
    }
    &&& forall|t: Seq<char>| !listed(tokens, t, n) ==> #[trigger] account_balance(fa, t) == account_balance(a, t)
    &&& fa.near_amount == a.near_amount
}

/// The account after the first `n` amounts were deposited, each to its token: every listed
/// token gains the sum set against it, the others keep their balance.
pub open spec fn deposited_all(a: &Account, fa: &Account, tokens: Seq<String>, amounts: Seq<u128>, n: int) -> bool {
    &&& forall|t: Seq<char>| #![trigger account_balance(fa, t)] listed(tokens, t, n) ==> {
        let sum = match account_balance(a, t) { Some(v) => v as nat, None => 0nat } + listed_total(tokens, amounts, t, n);
        &&& sum <= u128::MAX
        &&& account_balance(fa, t) == Some(sum as u128)
    }
    &&& forall|t: Seq<char>| !listed(tokens, t, n) ==> #[trigger] account_balance(fa, t) == account_balance(a, t)
    &&& fa.near_amount == a.near_amount
}

/// Nothing is set against a token that is not listed.
pub proof fn lemma_unlisted_total(tokens: Seq<String>, amounts: Seq<u128>, token: Seq<char>, n: int)
    requires
        !listed(tokens, token, n),
    ensures
        listed_total(tokens, amounts, token, n) == 0,
    decreases n,
{
    if n > 0 {
        assert(!listed(tokens, token, n - 1)) by {
            if listed(tokens, token, n - 1) {
                let i = choose|i: int| 0 <= i < n - 1 && #[trigger] tokens[i]@ == token;
                assert(0 <= i < n && tokens[i]@ == token);
            }
        }
        assert(tokens[n - 1]@ != token) by {
            if tokens[n - 1]@ == token {
                assert(0 <= n - 1 < n && tokens[n - 1]@ == token);
            }
        }
        lemma_unlisted_total(tokens, amounts, token, n - 1);
    }
}

/// One more entry: a token is listed among `n + 1` where it is among `n` or is the new one.
pub proof fn lemma_listed_step(tokens: Seq<String>, token: Seq<char>, n: int)
    requires
        0 <= n,
    ensures
        listed(tokens, token, n + 1) <==> (listed(tokens, token, n) || tokens[n]@ == token),
{
    if listed(tokens, token, n + 1) && !(tokens[n]@ == token) {
        let i = choose|i: int| 0 <= i < n + 1 && #[trigger] tokens[i]@ == token;
        assert(i != n);
        assert(0 <= i < n && tokens[i]@ == token);
    }
    if tokens[n]@ == token {
        assert(0 <= n < n + 1 && tokens[n]@ == token);
    }
    if listed(tokens, token, n) {
        let i = choose|i: int| 0 <= i < n && #[trigger] tokens[i]@ == token;
        assert(0 <= i < n + 1 && tokens[i]@ == token);
    }
}

/// Whether the account holds, of every listed token, the sum set against it.
pub open spec fn can_withdraw_all(a: &Account, tokens: Seq<String>, amounts: Seq<u128>, n: int) -> bool {
    forall|t: Seq<char>| #[trigger] listed(tokens, t, n) ==> account_balance(a, t) is Some && account_balance(a, t)->0 >= listed_total(tokens, amounts, t, n)
}

/// Whether every listed token's balance, with the sum set against it added, stays within
/// 128 bits.
pub open spec fn can_deposit_all(a: &Account, tokens: Seq<String>, amounts: Seq<u128>, n: int) -> bool {
    forall|t: Seq<char>| #[trigger] listed(tokens, t, n)
        ==> match account_balance(a, t) { Some(v) => v as nat, None => 0nat } + listed_total(tokens, amounts, t, n) <= u128::MAX
}

/// The sums set against a token only grow with more entries.
pub proof fn lemma_listed_total_mono(tokens: Seq<String>, amounts: Seq<u128>, token: Seq<char>, k: int, n: int)
    requires
        0 <= k <= n,
    ensures
        listed_total(tokens, amounts, token, k) <= listed_total(tokens, amounts, token, n),
    decreases n - k,
{
    if k < n {
        lemma_listed_total_mono(tokens, amounts, token, k, n - 1);
    }
}

/// Midway through withdrawing every amount, an account that could pay them all can pay the
/// next one.
pub proof fn lemma_can_withdraw_next(a: &Account, cur: &Account, tokens: Seq<String>, amounts: Seq<u128>, i: int, n: int)
    requires
        0 <= i < n,
        n <= tokens.len(),
        withdrawn_all(a, cur, tokens, amounts, i),
        can_withdraw_all(a, tokens, amounts, n),
    ensures
        account_balance(cur, tokens[i]@) is Some,
        account_balance(cur, tokens[i]@)->0 >= amounts[i],
{
    let t = tokens[i]@;
    assert(listed(tokens, t, n)) by {
        assert(0 <= i < n && tokens[i]@ == t);
    }
    lemma_listed_total_mono(tokens, amounts, t, i + 1, n);
    assert(listed_total(tokens, amounts, t, i + 1) == listed_total(tokens, amounts, t, i) + amounts[i]);
    if !listed(tokens, t, i) {
        lemma_unlisted_total(tokens, amounts, t, i);
        assert(account_balance(cur, t) == account_balance(a, t));
    } else {
        assert(account_balance(cur, t) == Some((account_balance(a, t)->0 - listed_total(tokens, amounts, t, i)) as u128));
    }
}

/// Midway through depositing every amount, an account whose balances take them all takes the
/// next one.
pub proof fn lemma_can_deposit_next(a: &Account, cur: &Account, tokens: Seq<String>, amounts: Seq<u128>, i: int, n: int)
    requires
        0 <= i < n,
        n <= tokens.len(),
        deposited_all(a, cur, tokens, amounts, i),
        can_deposit_all(a, tokens, amounts, n),
    ensures
        match account_balance(cur, tokens[i]@) { Some(v) => v as nat, None => 0nat } + amounts[i] <= u128::MAX,
{
    let t = tokens[i]@;
    assert(listed(tokens, t, n)) by {
        assert(0 <= i < n && tokens[i]@ == t);
    }
    lemma_listed_total_mono(tokens, amounts, t, i + 1, n);
    assert(listed_total(tokens, amounts, t, i + 1) == listed_total(tokens, amounts, t, i) + amounts[i]);
    if !listed(tokens, t, i) {
        lemma_unlisted_total(tokens, amounts, t, i);
        assert(account_balance(cur, t) == account_balance(a, t));
    }
}

/// One more withdrawal, of the next amount from its token, carries `withdrawn_all` one
/// entry further.
pub proof fn lemma_withdrawn_all_step(a: &Account, cur: &Account, next: &Account, tokens: Seq<String>, amounts: Seq<u128>, n: int)
    requires
        0 <= n < tokens.len(),
        n < amounts.len(),
        withdrawn_all(a, cur, tokens, amounts, n),
        withdrawn(cur, next, tokens[n]@, amounts[n] as nat),
    ensures
        withdrawn_all(a, next, tokens, amounts, n + 1),
{
    let tok = tokens[n]@;
    assert forall|t: Seq<char>| t != tok implies #[trigger] account_balance(next, t) == account_balance(cur, t) by {
        assert(next.tokens@.contains_key(t) == cur.tokens@.contains_key(t));
        assert(next.legacy_tokens@.contains_key(t) == cur.legacy_tokens@.contains_key(t));
    }
    assert forall|t: Seq<char>| #![trigger account_balance(next, t)] listed(tokens, t, n + 1) implies {
        &&& account_balance(a, t) is Some
        &&& account_balance(a, t)->0 >= listed_total(tokens, amounts, t, n + 1)
        &&& account_balance(next, t) == Some((account_balance(a, t)->0 - listed_total(tokens, amounts, t, n + 1)) as u128)
    } by {
        lemma_listed_step(tokens, t, n);
        if t == tok {
            if !listed(tokens, t, n) {
                lemma_unlisted_total(tokens, amounts, t, n);
                assert(account_balance(cur, t) == account_balance(a, t));
            } else {
                assert(account_balance(cur, t) == Some((account_balance(a, t)->0 - listed_total(tokens, amounts, t, n)) as u128));
            }
        } else {
            assert(account_balance(next, t) == account_balance(cur, t));
        }
    }
    assert forall|t: Seq<char>| !listed(tokens, t, n + 1) implies #[trigger] account_balance(next, t) == account_balance(a, t) by {
        lemma_listed_step(tokens, t, n);
        assert(account_balance(next, t) == account_balance(cur, t));
    }
}

/// One more deposit, of the next amount to its token, carries `deposited_all` one entry
/// further.
pub proof fn lemma_deposited_all_step(a: &Account, cur: &Account, next: &Account, tokens: Seq<String>, amounts: Seq<u128>, n: int)
    requires
        0 <= n < tokens.len(),
        n < amounts.len(),
        deposited_all(a, cur, tokens, amounts, n),
        deposited(cur, next, tokens[n]@, amounts[n] as nat),
        match account_balance(cur, tokens[n]@) { Some(v) => v as nat, None => 0nat } + amounts[n] <= u128::MAX,
    ensures
        deposited_all(a, next, tokens, amounts, n + 1),
{
    let tok = tokens[n]@;
    assert forall|t: Seq<char>| t != tok implies #[trigger] account_balance(next, t) == account_balance(cur, t) by {
        assert(next.tokens@.contains_key(t) == cur.tokens@.contains_key(t));
        assert(next.legacy_tokens@.contains_key(t) == cur.legacy_tokens@.contains_key(t));
    }
    assert forall|t: Seq<char>| #![trigger account_balance(next, t)] listed(tokens, t, n + 1) implies {
        let sum = match account_balance(a, t) { Some(v) => v as nat, None => 0nat } + listed_total(tokens, amounts, t, n + 1);
        &&& sum <= u128::MAX
        &&& account_balance(next, t) == Some(sum as u128)
    } by {
        lemma_listed_step(tokens, t, n);
        if t == tok {
            if !listed(tokens, t, n) {
                lemma_unlisted_total(tokens, amounts, t, n);
                assert(account_balance(cur, t) == account_balance(a, t));
            }
        } else {
            assert(account_balance(next, t) == account_balance(cur, t));
        }
    }
    assert forall|t: Seq<char>| !listed(tokens, t, n + 1) implies #[trigger] account_balance(next, t) == account_balance(a, t) by {
        lemma_listed_step(tokens, t, n);
        assert(account_balance(next, t) == account_balance(cur, t));
    }
}

/// A deposit followed by a withdrawal of the same amount gives every balance back; the
/// token stays registered, at zero where it was not registered before.
pub proof fn lemma_deposit_then_withdraw(a: &Account, b: &Account, c: &Account, token: Seq<char>, amount: nat)
    requires
        deposited(a, b, token, amount),
        withdrawn(b, c, token, amount),
        match account_balance(a, token) { Some(v) => v as nat, None => 0 } + amount <= u128::MAX,
    ensures
        account_balance(c, token) == Some(match account_balance(a, token) { Some(v) => v, None => 0u128 }),
        forall|t: Seq<char>| t != token ==> #[trigger] account_balance(c, t) == account_balance(a, t),
        c.near_amount == a.near_amount,
{
}

impl Account {
    /// An account with no NEAR and no tokens.
    pub fn new(account_id: &String) -> (r: Account)
        ensures
            r.near_amount == 0,
            r.legacy_tokens@ == Map::<Seq<char>, u128>::empty(),
            r.tokens@ == Map::<Seq<char>, u128>::empty(),
            r.storage_used == 0,
            r.shadow_records@ == Map::<u64, ShadowRecord>::empty(),
    {
        Account {
            near_amount: 0,
            legacy_tokens: StringHashMap::new(),
            tokens: StringHashMap::new(),
            storage_used: 0,
            shadow_records: HashMapWithView::new(),
        }
    }

    /// What the account has cast of its shares of pool `pool_id`, where anything is.
    pub fn get_shadow_record(&self, pool_id: u64) -> (r: Option<ShadowRecord>)
        ensures
            self.shadow_records@.contains_key(pool_id) ==> r == Some(self.shadow_records@[pool_id]),
            !self.shadow_records@.contains_key(pool_id) ==> r is None,
    {
        match self.shadow_records.get(&pool_id) {
            Some(rec) => Some(*rec),
            None => None,
        }
    }

    /// Casts or releases `amount` shares of pool `pool_id`, as `action` says; a record left
    /// with nothing cast goes. Refused, with no change, where a cast would leave 128 bits or a
    /// release asks for more than is cast.
    pub fn update_shadow_record(&mut self, pool_id: u64, action: ShadowActions, amount: u128) -> (r: Result<(), ExchangeError>)
        ensures
            shadow_updated(shadow_of(old(self), pool_id), action, amount as nat) matches Some(n) ==> r is Ok
                && final(self).shadow_records@ == if n == empty_record() {
                    old(self).shadow_records@.remove(pool_id)
                } else {
                    old(self).shadow_records@.insert(pool_id, n)
                },
            shadow_updated(shadow_of(old(self), pool_id), action, amount as nat) is None ==> final(self).shadow_records@ == old(self).shadow_records@
                && r == Err::<(), ExchangeError>(
                    if action == ShadowActions::ToFarming || action == ShadowActions::ToBurrowland { ExchangeError::ArithmeticOverflow } else { ExchangeError::NotEnoughShadowShares },
                ),
            final(self).tokens@ == old(self).tokens@,
            final(self).legacy_tokens@ == old(self).legacy_tokens@,
            final(self).near_amount == old(self).near_amount,
            final(self).storage_used == old(self).storage_used,
    {
        let mut rec = match self.shadow_records.get(&pool_id) {
            Some(r) => *r,
            None => ShadowRecord { shadow_in_farm: 0, shadow_in_burrow: 0 },
        };
        rec.update_shadow_info(action, amount)?;
        if rec.shadow_in_farm == 0 && rec.shadow_in_burrow == 0 {
            self.shadow_records.remove(&pool_id);
        } else {
            self.shadow_records.insert(pool_id, rec);
        }
        Ok(())
    }

    /// The balance of a token, where it is registered.
    pub fn get_balance(&self, token_id: &String) -> (r: Option<u128>)
        ensures
            r == account_balance(self, token_id@),
    {
        match self.tokens.get(token_id.as_str()) {
            Some(v) => Some(*v),
            None => match self.legacy_tokens.get(token_id.as_str()) {
                Some(v) => Some(*v),
                None => None,
            },
        }
    }

    /// Deposit amount to the balance of given token; refused, with no change, where the
    /// balance would overflow.
    pub fn deposit(&mut self, token: &String, amount: u128) -> (r: Result<(), ExchangeError>)
        ensures
            match account_balance(old(self), token@) {
                Some(v) => v + amount > u128::MAX ==> r == Err::<(), ExchangeError>(ExchangeError::ArithmeticOverflow),
                None => true,
            },
            r is Ok ==> deposited(old(self), final(self), token@, amount as nat),
            r is Err ==> match account_balance(old(self), token@) {
                Some(v) => v + amount > u128::MAX,
                None => false,
            },
            r is Err ==> final(self).tokens@ == old(self).tokens@ && final(self).legacy_tokens@ == old(self).legacy_tokens@ && final(self).near_amount == old(self).near_amount && final(self).storage_used == old(self).storage_used,
    {
        let prev = self.get_balance(token);
        let x = match prev {
            Some(v) => v,
            None => 0,
        };
        if x > u128::MAX - amount {
            return Err(ExchangeError::ArithmeticOverflow);
        }
        if !self.tokens.contains_key(token.as_str()) && self.legacy_tokens.contains_key(token.as_str()) {
            // need convert to tokens
            self.legacy_tokens.remove(token.as_str());
        }
        self.tokens.insert(token.clone(), amount + x);
        Ok(())
    }

    /// Withdraw amount of `token` from the internal balance.
    /// Refused, with no change, where the token is not registered or the balance is short.
    pub fn withdraw(&mut self, token: &String, amount: u128) -> (r: Result<(), ExchangeError>)
        ensures
            account_balance(old(self), token@) is None ==> r == Err::<(), ExchangeError>(ExchangeError::TokenNotRegistered),
            account_balance(old(self), token@) is Some && account_balance(old(self), token@)->0 < amount ==> r == Err::<(), ExchangeError>(ExchangeError::NotEnoughTokens),
            account_balance(old(self), token@) is Some && account_balance(old(self), token@)->0 >= amount ==> r is Ok,
            r is Ok ==> withdrawn(old(self), final(self), token@, amount as nat),
            r is Err ==> final(self).tokens@ == old(self).tokens@ && final(self).legacy_tokens@ == old(self).legacy_tokens@,
            final(self).near_amount == old(self).near_amount,
            final(self).storage_used == old(self).storage_used,
    {
        let x = match self.get_balance(token) {
            Some(v) => v,
            None => {
                return Err(ExchangeError::TokenNotRegistered);
            },
        };
        if x < amount {
            return Err(ExchangeError::NotEnoughTokens);
        }
        if !self.tokens.contains_key(token.as_str()) && self.legacy_tokens.contains_key(token.as_str()) {
            // need convert to tokens
            self.legacy_tokens.remove(token.as_str());
        }
        self.tokens.insert(token.clone(), x - amount);
        Ok(())
    }

    /// Returns amount of $NEAR necessary to cover storage used by this data structure, at
    /// `byte_cost` per byte.
    pub fn storage_usage(&self, byte_cost: u128) -> (r: Result<u128, ExchangeError>)
        ensures
            storage_cost(self, byte_cost as nat) <= u128::MAX ==> r == Ok::<u128, ExchangeError>(storage_cost(self, byte_cost as nat) as u128),
            storage_cost(self, byte_cost as nat) > u128::MAX ==> r == Err::<u128, ExchangeError>(ExchangeError::ArithmeticOverflow),
    {
        let legacy = self.legacy_tokens.len() as u128;
        let current = self.tokens.len() as u128;
        proof {
            assert(legacy * 84 <= u64::MAX * 84) by (nonlinear_arith)
                requires
                    legacy <= u64::MAX,
            ;
            assert(current * 148 <= u64::MAX * 148) by (nonlinear_arith)
                requires
                    current <= u64::MAX,
            ;
        }
        let bytes: u128 = INIT_ACCOUNT_STORAGE as u128 + legacy * (ACC_ID_AS_KEY_STORAGE + U128_STORAGE) as u128 + current * (KEY_PREFIX_ACC + ACC_ID_AS_KEY_STORAGE + U128_STORAGE) as u128;
        match bytes.checked_mul(byte_cost) {
            Some(v) => Ok(v),
            None => Err(ExchangeError::ArithmeticOverflow),
        }
    }

    /// Returns how much NEAR is available for storage.
    pub fn storage_available(&self, byte_cost: u128) -> (r: Result<u128, ExchangeError>)
        ensures
            storage_cost(self, byte_cost as nat) > u128::MAX ==> r == Err::<u128, ExchangeError>(ExchangeError::ArithmeticOverflow),
            storage_cost(self, byte_cost as nat) <= u128::MAX ==> r == Ok::<u128, ExchangeError>(
                if self.near_amount > storage_cost(self, byte_cost as nat) {
                    (self.near_amount - storage_cost(self, byte_cost as nat)) as u128
                } else {
                    0
                },
            ),
    {
        let locked = self.storage_usage(byte_cost)?;
        if self.near_amount > locked {
            Ok(self.near_amount - locked)
        } else {
            Ok(0)
        }
    }

    /// Pays `cost` of NEAR for storage a request took out of the account's NEAR; refused,
    /// with no change, where the account holds less.
    pub fn pay_storage(&mut self, cost: u128) -> (r: Result<(), ExchangeError>)
        ensures
            r is Ok <==> cost <= old(self).near_amount,
            r is Err ==> r == Err::<(), ExchangeError>(ExchangeError::InsufficientStorage) && *final(self) == *old(self),
            r is Ok ==> *final(self) == (Account { near_amount: (old(self).near_amount - cost) as u128, ..*old(self) }),
    {
        match self.near_amount.checked_sub(cost) {
            Some(v) => {
                self.near_amount = v;
                Ok(())
            },
            None => Err(ExchangeError::InsufficientStorage),
        }
    }

    /// Deposit amount to the balance of given token; a token not registered yet is taken
    /// only where the account's NEAR still covers its storage with it, and `false` says it
    /// was not. A registered token keeps its place, current or legacy.
    pub fn deposit_with_storage_check(&mut self, token: &String, amount: u128, byte_cost: u128) -> (r: Result<bool, ExchangeError>)
        ensures
            old(self).tokens@.contains_key(token@) ==> {
                &&& old(self).tokens@[token@] + amount > u128::MAX ==> r == Err::<bool, ExchangeError>(ExchangeError::ArithmeticOverflow) && *final(self) == *old(self)
                &&& old(self).tokens@[token@] + amount <= u128::MAX ==> r == Ok::<bool, ExchangeError>(true)
                    && *final(self) == (Account { tokens: final(self).tokens, ..*old(self) })
                    && final(self).tokens@ == old(self).tokens@.insert(token@, (old(self).tokens@[token@] + amount) as u128)
            },
            !old(self).tokens@.contains_key(token@) && old(self).legacy_tokens@.contains_key(token@) ==> {
                &&& old(self).legacy_tokens@[token@] + amount > u128::MAX ==> r == Err::<bool, ExchangeError>(ExchangeError::ArithmeticOverflow) && *final(self) == *old(self)
                &&& old(self).legacy_tokens@[token@] + amount <= u128::MAX ==> r == Ok::<bool, ExchangeError>(true)
                    && *final(self) == (Account { legacy_tokens: final(self).legacy_tokens, ..*old(self) })
                    && final(self).legacy_tokens@ == old(self).legacy_tokens@.insert(token@, (old(self).legacy_tokens@[token@] + amount) as u128)
            },
            !old(self).tokens@.contains_key(token@) && !old(self).legacy_tokens@.contains_key(token@) ==> {
                let cost_with = (storage_bytes(old(self)) + (KEY_PREFIX_ACC + ACC_ID_AS_KEY_STORAGE + U128_STORAGE)) * byte_cost;
                &&& cost_with <= u128::MAX && cost_with <= old(self).near_amount ==> r == Ok::<bool, ExchangeError>(true)
                    && final(self).tokens@ == old(self).tokens@.insert(token@, amount)
                    && *final(self) == (Account { tokens: final(self).tokens, ..*old(self) })
                &&& cost_with <= u128::MAX && cost_with > old(self).near_amount ==> r == Ok::<bool, ExchangeError>(false)
                    && *final(self) == (Account { tokens: final(self).tokens, ..*old(self) })
                    && final(self).tokens@ == old(self).tokens@
                &&& cost_with > u128::MAX ==> r == Err::<bool, ExchangeError>(ExchangeError::ArithmeticOverflow)
            },
    {
        if let Some(balance) = self.tokens.get(token.as_str()) {
            // token has been registered, just add without storage check
            let b = *balance;
            if b > u128::MAX - amount {
                return Err(ExchangeError::ArithmeticOverflow);
            }
            self.tokens.insert(token.clone(), b + amount);
            Ok(true)
        } else if let Some(x) = self.legacy_tokens.get(token.as_str()) {
            // token has been registered, just add without storage check
            let b = *x;
            if b > u128::MAX - amount {
                return Err(ExchangeError::ArithmeticOverflow);
            }
            self.legacy_tokens.insert(token.clone(), b + amount);
            Ok(true)
        } else {
            // the storage the account takes with the token registered
            let legacy = self.legacy_tokens.len() as u128;
            let current = self.tokens.len() as u128 + 1;
            proof {
                assert(legacy * 84 <= u64::MAX * 84) by (nonlinear_arith)
                    requires
                        legacy <= u64::MAX,
                ;
                assert(current * 148 <= (u64::MAX + 1) * 148) by (nonlinear_arith)
                    requires
                        current <= u64::MAX + 1,
                ;
            }
            let bytes: u128 = INIT_ACCOUNT_STORAGE as u128 + legacy * (ACC_ID_AS_KEY_STORAGE + U128_STORAGE) as u128 + current * (KEY_PREFIX_ACC + ACC_ID_AS_KEY_STORAGE + U128_STORAGE) as u128;
            assert(bytes == storage_bytes(old(self)) + (KEY_PREFIX_ACC + ACC_ID_AS_KEY_STORAGE + U128_STORAGE));
            let usage = match bytes.checked_mul(byte_cost) {
                Some(v) => v,
                None => {
                    return Err(ExchangeError::ArithmeticOverflow);
                },
            };
            if usage <= self.near_amount {
                self.tokens.insert(token.clone(), amount);
                Ok(true)
            } else {
                Ok(false)
            }
        }
    }

    /// Refuses an account whose NEAR does not cover its storage.
    pub fn assert_storage_usage(&self, byte_cost: u128) -> (r: Result<(), ExchangeError>)
        ensures
            r is Ok <==> storage_cost(self, byte_cost as nat) <= self.near_amount,
            storage_cost(self, byte_cost as nat) <= u128::MAX && storage_cost(self, byte_cost as nat) > self.near_amount ==> r == Err::<(), ExchangeError>(ExchangeError::InsufficientStorage),
    {
        let usage = self.storage_usage(byte_cost)?;
        if usage <= self.near_amount {
            Ok(())
        } else {
            Err(ExchangeError::InsufficientStorage)
        }
    }

    /// Pays from the account's NEAR for the storage a call added, from the storage used before
    /// and after it: `(storage_usage - prev_storage) * byte_cost`, nothing where it did not
    /// grow. Refused, with nothing paid, where the account holds less. Returns what was paid.
    pub fn pay_storage_growth(&mut self, prev_storage: u64, storage_usage: u64, byte_cost: u128) -> (r: Result<u128, ExchangeError>)
        ensures
            ({
                let cost: int = if storage_usage > prev_storage { (storage_usage - prev_storage) * byte_cost } else { 0 };
                &&& cost > u128::MAX ==> r == Err::<u128, ExchangeError>(ExchangeError::ArithmeticOverflow)
                    && final(self).near_amount == old(self).near_amount
                &&& cost <= u128::MAX && cost > old(self).near_amount ==> r == Err::<u128, ExchangeError>(ExchangeError::InsufficientStorage)
                    && final(self).near_amount == old(self).near_amount
                &&& cost <= old(self).near_amount ==> r == Ok::<u128, ExchangeError>(cost as u128)
                    && final(self).near_amount == old(self).near_amount - cost
            }),
            final(self).tokens@ == old(self).tokens@,
            final(self).shadow_records@ == old(self).shadow_records@,
            final(self).legacy_tokens@ == old(self).legacy_tokens@,
            final(self).storage_used == old(self).storage_used,
    {
        let grown: u64 = if storage_usage > prev_storage { storage_usage - prev_storage } else { 0 };
        let cost = match (grown as u128).checked_mul(byte_cost) {
            Some(c) => c,
            None => {
                return Err(ExchangeError::ArithmeticOverflow);
            },
        };
        if cost > self.near_amount {
            return Err(ExchangeError::InsufficientStorage);
        }
        self.near_amount = self.near_amount - cost;
        Ok(cost)
    }

    /// Credits the account's NEAR with the storage a call freed, from the storage used before
    /// and after it: `(prev_storage - storage_usage) * byte_cost`, nothing where it did not
    /// shrink. Refused, with nothing credited, where the sum would leave 128 bits. Returns what
    /// was credited.
    pub fn refund_storage_shrink(&mut self, prev_storage: u64, storage_usage: u64, byte_cost: u128) -> (r: Result<u128, ExchangeError>)
        ensures
            ({
                let freed: int = if prev_storage > storage_usage { (prev_storage - storage_usage) * byte_cost } else { 0 };
                &&& old(self).near_amount + freed <= u128::MAX ==> r == Ok::<u128, ExchangeError>(freed as u128)
                    && final(self).near_amount == old(self).near_amount + freed
                &&& old(self).near_amount + freed > u128::MAX ==> r == Err::<u128, ExchangeError>(ExchangeError::ArithmeticOverflow)
                    && final(self).near_amount == old(self).near_amount
            }),
            final(self).tokens@ == old(self).tokens@,
            final(self).legacy_tokens@ == old(self).legacy_tokens@,
            final(self).storage_used == old(self).storage_used,
            final(self).shadow_records@ == old(self).shadow_records@,
    {
        let shrunk: u64 = if prev_storage > storage_usage { prev_storage - storage_usage } else { 0 };
        let freed = match (shrunk as u128).checked_mul(byte_cost) {
            Some(v) => v,
            None => {
                return Err(ExchangeError::ArithmeticOverflow);
            },
        };
        if self.near_amount > u128::MAX - freed {
            return Err(ExchangeError::ArithmeticOverflow);
        }
        self.near_amount = self.near_amount + freed;
        Ok(freed)
    }

    /// Returns minimal account deposit storage usage possible.
    pub fn min_storage_usage(byte_cost: u128) -> (r: Result<u128, ExchangeError>)
        ensures
            INIT_ACCOUNT_STORAGE * byte_cost <= u128::MAX ==> r == Ok::<u128, ExchangeError>((INIT_ACCOUNT_STORAGE * byte_cost) as u128),
            INIT_ACCOUNT_STORAGE * byte_cost > u128::MAX ==> r == Err::<u128, ExchangeError>(ExchangeError::ArithmeticOverflow),
    {
        match (INIT_ACCOUNT_STORAGE as u128).checked_mul(byte_cost) {
            Some(v) => Ok(v),
            None => Err(ExchangeError::ArithmeticOverflow),
        }
    }

    /// Registers given tokens with a zero balance, where they are not registered yet.
    pub fn register(&mut self, token_ids: &Vec<String>)
        ensures
            forall|t: Seq<char>| #[trigger] final(self).tokens@.contains_key(t) <==> (old(self).tokens@.contains_key(t) || (exists|i: int| 0 <= i < token_ids@.len() && token_ids@[i]@ == t) && !old(self).legacy_tokens@.contains_key(t)),
            forall|t: Seq<char>| old(self).tokens@.contains_key(t) ==> #[trigger] final(self).tokens@[t] == old(self).tokens@[t],
            forall|t: Seq<char>| !old(self).tokens@.contains_key(t) && #[trigger] final(self).tokens@.contains_key(t) ==> final(self).tokens@[t] == 0,
            final(self).legacy_tokens@ == old(self).legacy_tokens@,
            final(self).near_amount == old(self).near_amount,
            final(self).storage_used == old(self).storage_used,
    {
        let mut i: usize = 0;
        while i < token_ids.len()
            invariant
                i <= token_ids.len(),
                forall|t: Seq<char>| #[trigger] self.tokens@.contains_key(t) <==> (old(self).tokens@.contains_key(t) || (exists|j: int| 0 <= j < i && token_ids@[j]@ == t) && !old(self).legacy_tokens@.contains_key(t)),
                forall|t: Seq<char>| old(self).tokens@.contains_key(t) ==> #[trigger] self.tokens@[t] == old(self).tokens@[t],
                forall|t: Seq<char>| !old(self).tokens@.contains_key(t) && #[trigger] self.tokens@.contains_key(t) ==> self.tokens@[t] == 0,
                self.legacy_tokens@ == old(self).legacy_tokens@,
                self.near_amount == old(self).near_amount,
                self.storage_used == old(self).storage_used,
            decreases token_ids.len() - i,
        {
            let t = &token_ids[i];
            if self.get_balance(t).is_none() {
                self.tokens.insert(t.clone(), 0);
            }
            proof {
                assert forall|s: Seq<char>| #[trigger] self.tokens@.contains_key(s) <==> (old(self).tokens@.contains_key(s) || (exists|j: int| 0 <= j < i + 1 && token_ids@[j]@ == s) && !old(self).legacy_tokens@.contains_key(s)) by {
                    if s == token_ids@[i as int]@ {
                        assert(token_ids@[i as int]@ == s);
                    }
                    if exists|j: int| 0 <= j < i + 1 && token_ids@[j]@ == s {
                        let j = choose|j: int| 0 <= j < i + 1 && token_ids@[j]@ == s;
                        if j < i {
                            assert(exists|k: int| 0 <= k < i && token_ids@[k]@ == s);
                        }
                    }
                }
            }
            i = i + 1;
        }
    }

    /// Unregisters `token_id` from this account balance.
    /// Refused, with no change, where the balance of the token is not zero.
    pub fn unregister(&mut self, token_id: &String) -> (r: Result<(), ExchangeError>)
        ensures
            (old(self).legacy_tokens@.contains_key(token_id@) && old(self).legacy_tokens@[token_id@] != 0) || (old(self).tokens@.contains_key(token_id@) && old(self).tokens@[token_id@] != 0)
                ==> r == Err::<(), ExchangeError>(ExchangeError::NonZeroTokenBalance) && final(self).tokens@ == old(self).tokens@ && final(self).legacy_tokens@ == old(self).legacy_tokens@,
            !((old(self).legacy_tokens@.contains_key(token_id@) && old(self).legacy_tokens@[token_id@] != 0) || (old(self).tokens@.contains_key(token_id@) && old(self).tokens@[token_id@] != 0))
                ==> r is Ok && final(self).tokens@ == old(self).tokens@.remove(token_id@) && final(self).legacy_tokens@ == old(self).legacy_tokens@.remove(token_id@),
            final(self).near_amount == old(self).near_amount,
            final(self).storage_used == old(self).storage_used,
    {
        let legacy = match self.legacy_tokens.get(token_id.as_str()) {
            Some(v) => *v,
            None => 0,
        };
        let current = match self.tokens.get(token_id.as_str()) {
            Some(v) => *v,
            None => 0,
        };
        if legacy != 0 || current != 0 {
            return Err(ExchangeError::NonZeroTokenBalance);
        }
        self.legacy_tokens.remove(token_id.as_str());
        self.tokens.remove(token_id.as_str());
        Ok(())
    }
}

impl Account {
    /// A storage deposit of `attached` NEAR for this account, which `registered` says the
    /// exchange already holds: a new account must bring at least the minimum storage. With
    /// `registration_only`, a registered account keeps its NEAR and all is refunded, and a new
    /// one gets just the minimum and the rest back; otherwise all of it is credited. Returns
    /// the refund.
    pub fn storage_deposit(&mut self, registered: bool, attached: u128, registration_only: bool, byte_cost: u128) -> (r: Result<u128, ExchangeError>)
        ensures
            INIT_ACCOUNT_STORAGE * byte_cost > u128::MAX ==> r == Err::<u128, ExchangeError>(ExchangeError::ArithmeticOverflow),
            INIT_ACCOUNT_STORAGE * byte_cost <= u128::MAX && !registered && attached < INIT_ACCOUNT_STORAGE * byte_cost
                ==> r == Err::<u128, ExchangeError>(ExchangeError::DepositLessThanMinStorage),
            INIT_ACCOUNT_STORAGE * byte_cost <= u128::MAX && (registered || attached >= INIT_ACCOUNT_STORAGE * byte_cost) ==> {
                let min = INIT_ACCOUNT_STORAGE * byte_cost;
                &&& registration_only && registered ==> r == Ok::<u128, ExchangeError>(attached)
                &&& registration_only && !registered ==> {
                    &&& old(self).near_amount + min > u128::MAX ==> r == Err::<u128, ExchangeError>(ExchangeError::ArithmeticOverflow)
                    &&& old(self).near_amount + min <= u128::MAX ==> r == Ok::<u128, ExchangeError>((attached - min) as u128)
                        && final(self).near_amount == old(self).near_amount + min
                }
                &&& !registration_only ==> {
                    &&& old(self).near_amount + attached > u128::MAX ==> r == Err::<u128, ExchangeError>(ExchangeError::ArithmeticOverflow)
                    &&& old(self).near_amount + attached <= u128::MAX ==> r == Ok::<u128, ExchangeError>(0)
                        && final(self).near_amount == old(self).near_amount + attached
                }
            },
            r is Err || (registration_only && registered) ==> final(self).near_amount == old(self).near_amount,
            final(self).tokens@ == old(self).tokens@,
            final(self).legacy_tokens@ == old(self).legacy_tokens@,
    {
        let min = Account::min_storage_usage(byte_cost)?;
        if !registered && attached < min {
            return Err(ExchangeError::DepositLessThanMinStorage);
        }
        if registration_only {
            if registered {
                Ok(attached)
            } else {
                if self.near_amount > u128::MAX - min {
                    return Err(ExchangeError::ArithmeticOverflow);
                }
                self.near_amount = self.near_amount + min;
                Ok(attached - min)
            }
        } else {
            if self.near_amount > u128::MAX - attached {
                return Err(ExchangeError::ArithmeticOverflow);
            }
            self.near_amount = self.near_amount + attached;
            Ok(0)
        }
    }
}

impl Contract {
    /// Withdraws `amount` of a token from the account's deposits, with one yoctoNEAR, while
    /// the exchange runs; with `unregister`, the token's entry goes too, which needs nothing of
    /// it to be left. The caller then sends the tokens to the account's owner.
    pub fn withdraw(&self, account: &mut Account, token_id: &String, amount: u128, unregister: Option<bool>, attached_deposit: u128) -> (r: Result<(), ExchangeError>)
        ensures
            attached_deposit != 1 ==> r == Err::<(), ExchangeError>(ExchangeError::OneYoctoRequired),
            attached_deposit == 1 && self.state != RunningState::Running ==> r == Err::<(), ExchangeError>(ExchangeError::ContractPaused),
            attached_deposit == 1 && self.state == RunningState::Running && amount == 0 ==> r == Err::<(), ExchangeError>(ExchangeError::IllegalWithdrawAmount),
            attached_deposit == 1 && self.state == RunningState::Running && amount > 0 && account_balance(old(account), token_id@) is None
                ==> r == Err::<(), ExchangeError>(ExchangeError::TokenNotRegistered),
            attached_deposit == 1 && self.state == RunningState::Running && amount > 0 && account_balance(old(account), token_id@) is Some
                && account_balance(old(account), token_id@)->0 < amount ==> r == Err::<(), ExchangeError>(ExchangeError::NotEnoughTokens),
            r is Ok <==> attached_deposit == 1 && self.state == RunningState::Running && amount > 0
                && account_balance(old(account), token_id@) is Some && account_balance(old(account), token_id@)->0 >= amount
                && (unregister == Some(true) ==> account_balance(old(account), token_id@)->0 == amount
                    && !(old(account).tokens@.contains_key(token_id@) && old(account).legacy_tokens@.contains_key(token_id@)
                        && old(account).legacy_tokens@[token_id@] != 0)),
            r is Ok && unregister != Some(true) ==> withdrawn(old(account), final(account), token_id@, amount as nat),
            r is Ok && unregister == Some(true) ==> final(account).tokens@ == old(account).tokens@.remove(token_id@)
                && final(account).legacy_tokens@ == old(account).legacy_tokens@.remove(token_id@),
            attached_deposit == 1 && self.state == RunningState::Running && amount > 0 && unregister == Some(true)
                && account_balance(old(account), token_id@) is Some && account_balance(old(account), token_id@)->0 >= amount
                && (account_balance(old(account), token_id@)->0 != amount || (old(account).tokens@.contains_key(token_id@)
                    && old(account).legacy_tokens@.contains_key(token_id@) && old(account).legacy_tokens@[token_id@] != 0))
                ==> r == Err::<(), ExchangeError>(ExchangeError::NonZeroTokenBalance),
            r is Err ==> final(account).tokens@ == old(account).tokens@ && final(account).legacy_tokens@ == old(account).legacy_tokens@,
            final(account).near_amount == old(account).near_amount,
    {
        Self::assert_one_yocto(attached_deposit)?;
        self.assert_contract_running()?;
        if amount == 0 {
            return Err(ExchangeError::IllegalWithdrawAmount);
        }
        if unregister == Some(true) {
            // the token's entry can go only where the withdrawal leaves nothing of it
            if let Some(balance) = account.get_balance(token_id) {
                let legacy_left = account.tokens.contains_key(token_id.as_str()) && match account.legacy_tokens.get(token_id.as_str()) {
                    Some(v) => *v != 0,
                    None => false,
                };
                if balance >= amount && (balance != amount || legacy_left) {
                    return Err(ExchangeError::NonZeroTokenBalance);
                }
            }
        }
        account.withdraw(token_id, amount)?;
        if unregister == Some(true) {
            let ghost mid = *account;
            account.unregister(token_id)?;
            proof {
                assert(mid.tokens@.remove(token_id@) =~= old(account).tokens@.remove(token_id@));
                assert(mid.legacy_tokens@.remove(token_id@) =~= old(account).legacy_tokens@.remove(token_id@));
            }
        }
        Ok(())
    }

    /// Registers tokens in the account; with one yoctoNEAR attached, while the exchange runs.
    pub fn register_tokens(&self, attached_deposit: u128, account: &mut Account, token_ids: &Vec<String>) -> (r: Result<(), ExchangeError>)
        ensures
            attached_deposit != 1 ==> r == Err::<(), ExchangeError>(ExchangeError::OneYoctoRequired),
            attached_deposit == 1 && self.state != RunningState::Running ==> r == Err::<(), ExchangeError>(ExchangeError::ContractPaused),
            attached_deposit == 1 && self.state == RunningState::Running ==> r is Ok,
            r is Err ==> *final(account) == *old(account),
            r is Ok ==> forall|t: Seq<char>| #[trigger] account_balance(final(account), t) == match account_balance(old(account), t) {
                Some(v) => Some(v),
                None => if views_of(token_ids@).contains(t) { Some(0u128) } else { None },
            },
            final(account).near_amount == old(account).near_amount,
    {
        Self::assert_one_yocto(attached_deposit)?;
        self.assert_contract_running()?;
        account.register(token_ids);
        proof {
            assert forall|t: Seq<char>| #[trigger] account_balance(account, t) == match account_balance(old(account), t) {
                Some(v) => Some(v),
                None => if views_of(token_ids@).contains(t) { Some(0u128) } else { None },
            } by {
                if views_of(token_ids@).contains(t) {
                    let i = choose|i: int| 0 <= i < views_of(token_ids@).len() && views_of(token_ids@)[i] == t;
                    assert(token_ids@[i]@ == t);
                } else if exists|i: int| 0 <= i < token_ids@.len() && token_ids@[i]@ == t {
                    let i = choose|i: int| 0 <= i < token_ids@.len() && token_ids@[i]@ == t;
                    assert(views_of(token_ids@)[i] == t);
                }
            }
        }
        Ok(())
    }

    /// Unregisters tokens from the account, each of which must have a zero balance; with one
    /// yoctoNEAR attached, while the exchange runs.
    pub fn unregister_tokens(&self, attached_deposit: u128, account: &mut Account, token_ids: &Vec<String>) -> (r: Result<(), ExchangeError>)
        ensures
            attached_deposit != 1 ==> r == Err::<(), ExchangeError>(ExchangeError::OneYoctoRequired),
            attached_deposit == 1 && self.state != RunningState::Running ==> r == Err::<(), ExchangeError>(ExchangeError::ContractPaused),
            r is Ok ==> forall|t: Seq<char>| #[trigger] account_balance(final(account), t) == if views_of(token_ids@).contains(t) {
                None
            } else {
                account_balance(old(account), t)
            },
            final(account).near_amount == old(account).near_amount,
    {
        Self::assert_one_yocto(attached_deposit)?;
        self.assert_contract_running()?;
        let mut i: usize = 0;
        while i < token_ids.len()
            invariant
                i <= token_ids.len(),
                attached_deposit == 1,
                self.state == RunningState::Running,
                forall|t: Seq<char>| #[trigger] account_balance(account, t) == if views_of(token_ids@.subrange(0, i as int)).contains(t) {
                    None
                } else {
                    account_balance(old(account), t)
                },
                account.near_amount == old(account).near_amount,
            decreases token_ids.len() - i,
        {
            let ghost before = *account;
            let ghost x = token_ids@[i as int]@;
            account.unregister(&token_ids[i])?;
            proof {
                assert(views_of(token_ids@.subrange(0, i + 1)) =~= views_of(token_ids@.subrange(0, i as int)).push(x));
                assert forall|t: Seq<char>| #[trigger] account_balance(account, t) == if views_of(token_ids@.subrange(0, i + 1)).contains(t) {
                    None
                } else {
                    account_balance(old(account), t)
                } by {
                    vstd::seq_lib::lemma_seq_contains_after_push(views_of(token_ids@.subrange(0, i as int)), x, t);
                    assert(account_balance(&before, t) == if views_of(token_ids@.subrange(0, i as int)).contains(t) {
                        None
                    } else {
                        account_balance(old(account), t)
                    });
                }
            }
            i = i + 1;
        }
        assert(token_ids@.subrange(0, token_ids@.len() as int) == token_ids@);
        Ok(())
    }

    /// Credits tokens nobody could take back to the owner's account, which takes only
    /// whitelisted tokens.
    pub fn internal_lostfound(&self, owner_account: &mut Account, token_id: &String, amount: u128) -> (r: Result<(), ExchangeError>)
        ensures
            !list_view(self.whitelisted_tokens@).contains(token_id@) ==> r == Err::<(), ExchangeError>(ExchangeError::LostfoundNotWhitelisted)
                && *final(owner_account) == *old(owner_account),
            list_view(self.whitelisted_tokens@).contains(token_id@) ==> {
                &&& (account_balance(old(owner_account), token_id@) matches Some(v) && v + amount > u128::MAX) ==> r == Err::<(), ExchangeError>(ExchangeError::ArithmeticOverflow)
                &&& r is Ok ==> deposited(old(owner_account), final(owner_account), token_id@, amount as nat)
            },
    {
        if contains_string(&self.whitelisted_tokens, token_id, self.whitelisted_tokens.len()) {
            proof {
                let i = choose|i: int| 0 <= i < self.whitelisted_tokens@.len() && #[trigger] self.whitelisted_tokens@[i]@ == token_id@;
                assert(list_view(self.whitelisted_tokens@)[i] == token_id@);
            }
            owner_account.deposit(token_id, amount)
        } else {
            proof {
                if list_view(self.whitelisted_tokens@).contains(token_id@) {
                    let i = choose|i: int| 0 <= i < list_view(self.whitelisted_tokens@).len() && list_view(self.whitelisted_tokens@)[i] == token_id@;
                    assert(self.whitelisted_tokens@[i]@ == token_id@);
                }
            }
            Err(ExchangeError::LostfoundNotWhitelisted)
        }
    }

    /// After tokens were sent back to their owner: a failed transfer returns them to the
    /// owner's account where it is registered and has storage for them, and otherwise to the
    /// exchange owner's account. The result says whether the exchange owner's account took them.
    pub fn exchange_callback_post_withdraw(
        &self,
        transfer_succeeded: bool,
        sender: &mut Account,
        sender_registered: bool,
        owner_account: &mut Account,
        token_id: &String,
        amount: u128,
        byte_cost: u128,
    ) -> (r: Result<bool, ExchangeError>)
        ensures
            transfer_succeeded ==> r == Ok::<bool, ExchangeError>(false) && *final(sender) == *old(sender) && *final(owner_account) == *old(owner_account),
            !transfer_succeeded && !sender_registered ==> *final(sender) == *old(sender)
                && (r is Ok ==> r == Ok::<bool, ExchangeError>(true) && deposited(old(owner_account), final(owner_account), token_id@, amount as nat)),
            !transfer_succeeded && !sender_registered && !list_view(self.whitelisted_tokens@).contains(token_id@)
                ==> r == Err::<bool, ExchangeError>(ExchangeError::LostfoundNotWhitelisted),
            !transfer_succeeded && sender_registered && r == Ok::<bool, ExchangeError>(false) ==> *final(owner_account) == *old(owner_account)
                && account_balance(final(sender), token_id@) == Some((match account_balance(old(sender), token_id@) { Some(v) => v as nat, None => 0 } + amount) as u128),
            !transfer_succeeded && sender_registered && r == Ok::<bool, ExchangeError>(true) ==> final(sender).tokens@ == old(sender).tokens@
                && final(sender).legacy_tokens@ == old(sender).legacy_tokens@
                && deposited(old(owner_account), final(owner_account), token_id@, amount as nat),
    {
        if transfer_succeeded {
            return Ok(false);
        }
        if sender_registered {
            if sender.deposit_with_storage_check(token_id, amount, byte_cost)? {
                return Ok(false);
            }
        }
        self.internal_lostfound(owner_account, token_id, amount)?;
        Ok(true)
    }
}

} // verus!
