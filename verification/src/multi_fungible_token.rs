//! Token ids of the multi-token interface: a plain token, or the shares of a pool written
//! `:<pool id>`.
use crate::account_deposit::{account_balance, deposited, shadow_of, withdrawn, Account};
use crate::shadow_record::free_under;
use crate::contract::{contract_wf, Contract};
use crate::errors::ExchangeError;
use crate::pool::{pool_ledger, pool_supply, pool_tokens, pool_wf, share_transfer_ok};
use crate::pool_shares::{balance_in, transferred};
use crate::shadow_actions::{parse_digits, parse_u64};
use vstd::prelude::*;

verus! {

/// A token, or the shares of a pool.
#[derive(Clone, Debug)]
pub enum TokenOrPool {
    Token(String),
    Pool(u64),
}

/// The pool whose shares a token id names, where it names one: `:` and a `u64`.
pub open spec fn named_pool(token_id: Seq<char>) -> Option<u64> {
    if token_id.len() > 0 && token_id[0] == ':' {
        parse_u64(token_id.subrange(1, token_id.len() as int))
    } else {
        None
    }
}

/// Whether `amount` of a token, or of a pool's shares, can move from one holder to another:
/// two different holders; for shares, a pool of that id, a positive amount the sender holds,
/// and a ledger entry for the receiver that stays within 128 bits; for a token, a registered
/// sender with enough of it and a receiver whose balance stays within 128 bits.
pub open spec fn mft_transfer_ok(
    c: &Contract,
    token_id: Seq<char>,
    from_id: Seq<char>,
    from: &Account,
    to_id: Seq<char>,
    to: &Account,
    amount: nat,
) -> bool {
    &&& from_id != to_id
    &&& match named_pool(token_id) {
        Some(pid) => {
            &&& pid < c.pools@.len()
            &&& amount > 0
            &&& amount <= free_under(shadow_of(from, pid), balance_in(pool_ledger(&c.pools@[pid as int]), from_id) as nat)
            &&& share_transfer_ok(pool_ledger(&c.pools@[pid as int]), from_id, to_id, amount)
        },
        None => {
            &&& account_balance(from, token_id) is Some
            &&& account_balance(from, token_id)->0 >= amount
            &&& match account_balance(to, token_id) {
                Some(v) => v + amount <= u128::MAX,
                None => amount <= u128::MAX,
            }
        },
    }
}

/// `amount` of a token, or of a pool's shares, moved from one holder to another: shares
/// between the pool's ledger entries, leaving every other pool and both accounts as they
/// were; a token between the two accounts, leaving every pool as it was.
pub open spec fn mft_moved(
    c: &Contract,
    fc: &Contract,
    token_id: Seq<char>,
    from_id: Seq<char>,
    from: &Account,
    ffrom: &Account,
    to_id: Seq<char>,
    to: &Account,
    fto: &Account,
    amount: nat,
) -> bool {
    match named_pool(token_id) {
        Some(pid) => {
            &&& pid < c.pools@.len()
            &&& fc.pools@.len() == c.pools@.len()
            &&& pool_ledger(&fc.pools@[pid as int]) == transferred(pool_ledger(&c.pools@[pid as int]), from_id, to_id, amount)
            &&& pool_tokens(&fc.pools@[pid as int]) == pool_tokens(&c.pools@[pid as int])
            &&& pool_supply(&fc.pools@[pid as int]) == pool_supply(&c.pools@[pid as int])
            &&& forall|j: int| 0 <= j < c.pools@.len() && j != pid ==> #[trigger] fc.pools@[j] == c.pools@[j]
            &&& *ffrom == *from
            &&& *fto == *to
        },
        None => {
            &&& fc.pools@ == c.pools@
            &&& withdrawn(from, ffrom, token_id, amount)
            &&& deposited(to, fto, token_id, amount)
        },
    }
}

/// The pool id of a token id `:<pool id>`.
pub fn try_identify_pool_id(token_id: &String) -> (r: Result<u64, ExchangeError>)
    ensures
        token_id@.len() > 0 && token_id@[0] == ':' ==> match parse_u64(token_id@.subrange(1, token_id@.len() as int)) {
            Some(v) => r == Ok::<u64, ExchangeError>(v),
            None => r == Err::<u64, ExchangeError>(ExchangeError::IllegalPoolId),
        },
        !(token_id@.len() > 0 && token_id@[0] == ':') ==> r == Err::<u64, ExchangeError>(ExchangeError::IllegalPoolId),
{
    let s = token_id.as_str();
    let n = s.unicode_len();
    if n > 0 && s.get_char(0) == ':' {
        match parse_digits(s, 1, n) {
            Some(v) => Ok(v),
            None => Err(ExchangeError::IllegalPoolId),
        }
    } else {
        Err(ExchangeError::IllegalPoolId)
    }
}

/// A token id read as the shares of a pool where it names one, else as a token.
pub fn parse_token_id(token_id: String) -> (r: TokenOrPool)
    ensures
        token_id@.len() > 0 && token_id@[0] == ':' && parse_u64(token_id@.subrange(1, token_id@.len() as int)) is Some
            ==> r == TokenOrPool::Pool(parse_u64(token_id@.subrange(1, token_id@.len() as int))->0),
        !(token_id@.len() > 0 && token_id@[0] == ':' && parse_u64(token_id@.subrange(1, token_id@.len() as int)) is Some)
            ==> r == TokenOrPool::Token(token_id),
{
    match try_identify_pool_id(&token_id) {
        Ok(pool_id) => TokenOrPool::Pool(pool_id),
        Err(_) => TokenOrPool::Token(token_id),
    }
}

/// A token named in a transfer: a plain token, shares of one of this exchange's pools,
/// shares of a pool of another exchange, or something that cannot be read.
#[derive(Clone, Debug)]
pub enum TokenType {
    Nep141 { token_id: String },
    InnerMFT { pool_id: u64 },
    OuterMFT { token_contract_id: String, inner_id: u64 },
    Illegal,
}

/// `k` is the first `:` of `s`.
pub open spec fn first_colon(s: Seq<char>, k: int) -> bool {
    &&& 0 <= k < s.len()
    &&& s[k] == ':'
    &&& forall|j: int| 0 <= j < k ==> s[j] != ':'
}

/// `s` has a `:` after position `k`.
pub open spec fn colon_after(s: Seq<char>, k: int) -> bool {
    exists|j: int| k < j < s.len() && s[j] == ':'
}

/// Position of the first `:` at or after `from`, else the length.
fn find_colon(s: &str, from: usize) -> (r: usize)
    requires
        from <= s@.len(),
    ensures
        from <= r <= s@.len(),
        r < s@.len() ==> s@[r as int] == ':',
        forall|j: int| from <= j < r ==> s@[j] != ':',
{
    let n = s.unicode_len();
    let mut i = from;
    while i < n
        invariant
            n == s@.len(),
            from <= i <= n,
            forall|j: int| from <= j < i ==> s@[j] != ':',
        decreases n - i,
    {
        if s.get_char(i) == ':' {
            return i;
        }
        i = i + 1;
    }
    i
}

impl TokenType {
    /// Reads a token named in a transfer, split at `:`. Without a `:` it is a plain token;
    /// with more than one, a plain token named by the part before the first. With exactly
    /// one, the part after it must be a pool id: an empty part before it, or this exchange's
    /// id, names one of this exchange's pools, any other a pool of that exchange.
    pub fn parse_token(token: &String, exchange_id: &String) -> (r: TokenType)
        ensures
            (forall|j: int| 0 <= j < token@.len() ==> token@[j] != ':') ==> (r matches TokenType::Nep141 { token_id } && token_id@ == token@),
            forall|k: int| first_colon(token@, k) && colon_after(token@, k) ==> (r matches TokenType::Nep141 { token_id } && token_id@ == token@.subrange(0, k)),
            forall|k: int| first_colon(token@, k) && !colon_after(token@, k) ==> match parse_u64(token@.subrange(k + 1, token@.len() as int)) {
                None => r is Illegal,
                Some(id) => if k == 0 || token@.subrange(0, k) == exchange_id@ {
                    r == TokenType::InnerMFT { pool_id: id }
                } else {
                    r matches TokenType::OuterMFT { token_contract_id, inner_id } && token_contract_id@ == token@.subrange(0, k) && inner_id == id
                },
            },
    {
        let s = token.as_str();
        let n = s.unicode_len();
        let k = find_colon(s, 0);
        if k == n {
            return TokenType::Nep141 { token_id: token.clone() };
        }
        proof {
            assert forall|k2: int| first_colon(token@, k2) implies k2 == k by {
                if k2 < k {
                    assert(token@[k2] != ':');
                }
                if k < k2 {
                    assert(token@[k as int] == ':');
                }
            }
        }
        let k2 = find_colon(s, k + 1);
        let prefix = String::from_str(s.substring_char(0, k));
        if k2 < n {
            assert(colon_after(token@, k as int));
            return TokenType::Nep141 { token_id: prefix };
        }
        proof {
            if colon_after(token@, k as int) {
                let j = choose|j: int| k < j < token@.len() && token@[j] == ':';
                assert(token@[j] != ':');
            }
        }
        match parse_digits(s, k + 1, n) {
            None => TokenType::Illegal,
            Some(pool_id) => {
                if k == 0 || prefix == *exchange_id {
                    TokenType::InnerMFT { pool_id }
                } else {
                    TokenType::OuterMFT { token_contract_id: prefix, inner_id: pool_id }
                }
            },
        }
    }
}

impl Contract {
    /// Moves `amount` of a token, or of a pool's shares, from the sender to the receiver.
    /// Shares go between the pool's ledger entries, only those the sender has cast nowhere, all
    /// of them where no amount is given; a token goes between the two accounts handed in, which
    /// stay untouched for shares.
    pub fn internal_mft_transfer(
        &mut self,
        token_id: String,
        sender_id: &String,
        sender: &mut Account,
        receiver_id: &String,
        receiver: &mut Account,
        amount: Option<u128>,
    ) -> (r: Result<u128, ExchangeError>)
        requires
            contract_wf(old(self)),
            named_pool(token_id@) is None ==> amount is Some,
        ensures
            contract_wf(final(self)),
            final(self).pools@.len() == old(self).pools@.len(),
            sender_id@ == receiver_id@ ==> r == Err::<u128, ExchangeError>(ExchangeError::TransferToSelf)
                && *final(self) == *old(self) && *final(sender) == *old(sender) && *final(receiver) == *old(receiver),
            match named_pool(token_id@) {
                Some(pid) => {
                    &&& *final(sender) == *old(sender)
                    &&& *final(receiver) == *old(receiver)
                    &&& sender_id@ != receiver_id@ && pid >= old(self).pools@.len() ==> r == Err::<u128, ExchangeError>(ExchangeError::NoPool)
                    &&& sender_id@ != receiver_id@ && pid < old(self).pools@.len() ==> {
                        let ledger = pool_ledger(&old(self).pools@[pid as int]);
                        let avail = free_under(shadow_of(old(sender), pid), balance_in(ledger, sender_id@) as nat);
                        let amt = match amount { Some(a) => a as nat, None => avail };
                        &&& amt == 0 ==> r == Err::<u128, ExchangeError>(ExchangeError::ZeroTransferAmount)
                        &&& 0 < amt && amt > avail ==> r == Err::<u128, ExchangeError>(ExchangeError::NotEnoughFreeShares)
                        &&& r matches Ok(v) ==> {
                            &&& v == amt
                            &&& pool_ledger(&final(self).pools@[pid as int]) == transferred(ledger, sender_id@, receiver_id@, amt)
                            &&& pool_tokens(&final(self).pools@[pid as int]) == pool_tokens(&old(self).pools@[pid as int])
                            &&& pool_supply(&final(self).pools@[pid as int]) == pool_supply(&old(self).pools@[pid as int])
                        }
                        &&& forall|j: int| 0 <= j < old(self).pools@.len() && j != pid ==> #[trigger] final(self).pools@[j] == old(self).pools@[j]
                    }
                },
                None => {
                    &&& final(self).pools@ == old(self).pools@
                    &&& r matches Ok(v) ==> {
                        &&& v == amount->0
                        &&& withdrawn(old(sender), final(sender), token_id@, v as nat)
                        &&& deposited(old(receiver), final(receiver), token_id@, v as nat)
                    }
                    &&& sender_id@ != receiver_id@ && account_balance(old(sender), token_id@) is None ==> r == Err::<u128, ExchangeError>(ExchangeError::TokenNotRegistered)
                },
            },
            r matches Ok(v) ==> mft_moved(old(self), final(self), token_id@, sender_id@, old(sender), final(sender), receiver_id@, old(receiver), final(receiver), v as nat),
            amount matches Some(a) ==> (r is Ok <==> mft_transfer_ok(old(self), token_id@, sender_id@, old(sender), receiver_id@, old(receiver), a as nat)),
            amount is None ==> (r is Ok <==> named_pool(token_id@)->0 < old(self).pools@.len() && mft_transfer_ok(old(self), token_id@, sender_id@, old(sender), receiver_id@, old(receiver),
                free_under(shadow_of(old(sender), named_pool(token_id@)->0), balance_in(pool_ledger(&old(self).pools@[named_pool(token_id@)->0 as int]), sender_id@) as nat))),
            final(self).admin_fee_bps == old(self).admin_fee_bps,
            final(self).state == old(self).state,
            final(self).owner_id == old(self).owner_id,
    {
        if *sender_id == *receiver_id {
            return Err(ExchangeError::TransferToSelf);
        }
        let ghost tid = token_id@;
        match parse_token_id(token_id) {
            TokenOrPool::Pool(pool_id) => {
                if pool_id >= self.pools.len() as u64 {
                    return Err(ExchangeError::NoPool);
                }
                let idx = pool_id as usize;
                let total = self.pools[idx].share_balances(sender_id);
                let available = match sender.get_shadow_record(pool_id) {
                    Some(rec) => rec.free_shares(total),
                    None => total,
                };
                let amount = match amount {
                    Some(a) => a,
                    None => available,
                };
                if amount == 0 {
                    return Err(ExchangeError::ZeroTransferAmount);
                }
                if amount > available {
                    return Err(ExchangeError::NotEnoughFreeShares);
                }
                let mut pool = self.pools.remove(idx);
                assert(pool == old(self).pools@[idx as int]);
                let res = pool.share_transfer(sender_id, receiver_id, amount);
                self.pools.insert(idx, pool);
                proof {
                    assert forall|j: int| 0 <= j < self.pools@.len() implies #[trigger] pool_wf(&self.pools@[j]) by {
                        if j != idx {
                            assert(self.pools@[j] == old(self).pools@[j]);
                        }
                    }
                }
                res?;
                Ok(amount)
            },
            TokenOrPool::Token(token_id) => {
                let amount = match amount {
                    Some(a) => a,
                    None => {
                        return Err(ExchangeError::Unsupported);
                    },
                };
                sender.withdraw(&token_id, amount)?;
                receiver.deposit(&token_id, amount)?;
                Ok(amount)
            },
        }
    }

    /// Transfer one of internal tokens: LP or balances; with one yoctoNEAR attached, while
    /// the exchange runs.
    pub fn mft_transfer(
        &mut self,
        attached_deposit: u128,
        token_id: String,
        sender_id: &String,
        sender: &mut Account,
        receiver_id: &String,
        receiver: &mut Account,
        amount: u128,
    ) -> (r: Result<u128, ExchangeError>)
        requires
            contract_wf(old(self)),
        ensures
            contract_wf(final(self)),
            final(self).pools@.len() == old(self).pools@.len(),
            attached_deposit != 1 ==> r == Err::<u128, ExchangeError>(ExchangeError::OneYoctoRequired),
            attached_deposit == 1 && old(self).state != crate::event::RunningState::Running ==> r == Err::<u128, ExchangeError>(ExchangeError::ContractPaused),
            r matches Ok(v) ==> v == amount,
            attached_deposit == 1 && old(self).state == crate::event::RunningState::Running && sender_id@ == receiver_id@
                ==> r == Err::<u128, ExchangeError>(ExchangeError::TransferToSelf),
            named_pool(token_id@) is None && r is Ok ==> withdrawn(old(sender), final(sender), token_id@, amount as nat)
                && deposited(old(receiver), final(receiver), token_id@, amount as nat),
            named_pool(token_id@) is Some && r is Ok ==> *final(sender) == *old(sender) && *final(receiver) == *old(receiver)
                && pool_ledger(&final(self).pools@[named_pool(token_id@)->0 as int]) == transferred(pool_ledger(&old(self).pools@[named_pool(token_id@)->0 as int]), sender_id@, receiver_id@, amount as nat),
    {
        if attached_deposit != 1 {
            return Err(ExchangeError::OneYoctoRequired);
        }
        self.assert_contract_running()?;
        self.internal_mft_transfer(token_id, sender_id, sender, receiver_id, receiver, Some(amount))
    }

    /// The transfer that starts a transfer call: all the sender's shares of the pool the token
    /// id names move to the receiver, who is then asked to take them. Returns the amount.
    pub fn mft_transfer_all_call(
        &mut self,
        attached_deposit: u128,
        token_id: String,
        sender_id: &String,
        receiver_id: &String,
    ) -> (r: Result<u128, ExchangeError>)
        requires
            contract_wf(old(self)),
            named_pool(token_id@) is Some,
        ensures
            contract_wf(final(self)),
            final(self).pools@.len() == old(self).pools@.len(),
            attached_deposit != 1 ==> r == Err::<u128, ExchangeError>(ExchangeError::OneYoctoRequired),
            attached_deposit == 1 && old(self).state != crate::event::RunningState::Running ==> r == Err::<u128, ExchangeError>(ExchangeError::ContractPaused),
            r matches Ok(v) ==> {
                let pid = named_pool(token_id@)->0;
                &&& pid < old(self).pools@.len()
                &&& v == balance_in(pool_ledger(&old(self).pools@[pid as int]), sender_id@)
                &&& pool_ledger(&final(self).pools@[pid as int]) == transferred(pool_ledger(&old(self).pools@[pid as int]), sender_id@, receiver_id@, v as nat)
            },
    {
        if attached_deposit != 1 {
            return Err(ExchangeError::OneYoctoRequired);
        }
        self.assert_contract_running()?;
        let mut no_sender = Account::new(sender_id);
        let mut no_receiver = Account::new(receiver_id);
        self.internal_mft_transfer(token_id, sender_id, &mut no_sender, receiver_id, &mut no_receiver, None)
    }

    /// After a transfer call: what the receiver reports unused (all of it where the call failed
    /// or gave no number) goes back from the receiver, as far as the receiver still holds it,
    /// to the sender where registered, else to the exchange; `refund_to` is that account.
    /// Returns how much was refunded; tokens are never burnt.
    pub fn mft_resolve_transfer(
        &mut self,
        token_id: String,
        receiver_id: &String,
        receiver: &mut Account,
        sender_id: &String,
        sender_registered: bool,
        exchange_id: &String,
        refund_to: &mut Account,
        amount: u128,
        reported_unused: Option<u128>,
    ) -> (r: Result<u128, ExchangeError>)
        requires
            contract_wf(old(self)),
        ensures
            contract_wf(final(self)),
            final(self).pools@.len() == old(self).pools@.len(),
            r matches Ok(v) ==> {
                let unused: nat = match reported_unused { Some(u) => if u < amount { u as nat } else { amount as nat }, None => amount as nat };
                let refund_id = if sender_registered { sender_id@ } else { exchange_id@ };
                let held = old(self).spec_mft_balance(token_id@, receiver_id@, Some(old(receiver)));
                let refund: nat = if unused == 0 { 0 } else if held->Ok_0 < unused { held->Ok_0 as nat } else { unused };
                &&& v == refund
                &&& unused > 0 ==> held is Ok
                &&& refund == 0 ==> final(self).pools@ == old(self).pools@ && *final(receiver) == *old(receiver) && *final(refund_to) == *old(refund_to)
                &&& refund > 0 ==> mft_moved(old(self), final(self), token_id@, receiver_id@, old(receiver), final(receiver), refund_id, old(refund_to), final(refund_to), refund as nat)
            },
            ({
                let unused: nat = match reported_unused { Some(u) => if u < amount { u as nat } else { amount as nat }, None => amount as nat };
                let refund_id = if sender_registered { sender_id@ } else { exchange_id@ };
                let held = old(self).spec_mft_balance(token_id@, receiver_id@, Some(old(receiver)));
                let refund: nat = if held->Ok_0 < unused { held->Ok_0 as nat } else { unused };
                r is Ok <==> (unused == 0 || (held is Ok && (refund == 0
                    || mft_transfer_ok(old(self), token_id@, receiver_id@, old(receiver), refund_id, old(refund_to), refund))))
            }),
    {
        let unused_amount = match reported_unused {
            Some(u) => if u < amount { u } else { amount },
            None => amount,
        };
        if unused_amount > 0 {
            let receiver_balance = self.internal_mft_balance(token_id.clone(), receiver_id, Some(&*receiver))?;
            if receiver_balance > 0 {
                let refund_amount = if receiver_balance < unused_amount { receiver_balance } else { unused_amount };
                let refund_to_id = if sender_registered { sender_id.clone() } else { exchange_id.clone() };
                self.internal_mft_transfer(token_id, receiver_id, receiver, &refund_to_id, refund_to, Some(refund_amount))?;
                return Ok(refund_amount);
            }
        }
        Ok(0)
    }

    /// The balance of a token, or of a pool's shares, held by an account; zero for a token
    /// where the account is not registered or holds none of it.
    pub fn internal_mft_balance(&self, token_id: String, account_id: &String, account: Option<&Account>) -> (r: Result<u128, ExchangeError>)
        ensures
            r == self.spec_mft_balance(token_id@, account_id@, account),
    {
        match parse_token_id(token_id) {
            TokenOrPool::Pool(pool_id) => {
                if pool_id >= self.pools.len() as u64 {
                    return Err(ExchangeError::NoPool);
                }
                Ok(self.pools[pool_id as usize].share_balances(account_id))
            },
            TokenOrPool::Token(token_id) => match account {
                Some(a) => match a.get_balance(&token_id) {
                    Some(v) => Ok(v),
                    None => Ok(0),
                },
                None => Ok(0),
            },
        }
    }

    /// Returns the balance of the given account; zero where the account does not exist.
    pub fn mft_balance_of(&self, token_id: String, account_id: &String, account: Option<&Account>) -> (r: Result<u128, ExchangeError>)
        ensures
            r == self.spec_mft_balance(token_id@, account_id@, account),
    {
        self.internal_mft_balance(token_id, account_id, account)
    }

    /// What `mft_balance_of` gives.
    pub open spec fn spec_mft_balance(&self, token_id: Seq<char>, account_id: Seq<char>, account: Option<&Account>) -> Result<u128, ExchangeError> {
        match named_pool(token_id) {
            Some(pid) => if pid < self.pools@.len() {
                Ok(balance_in(pool_ledger(&self.pools@[pid as int]), account_id) as u128)
            } else {
                Err(ExchangeError::NoPool)
            },
            None => Ok(match account {
                Some(a) => match account_balance(a, token_id) {
                    Some(v) => v,
                    None => 0u128,
                },
                None => 0u128,
            }),
        }
    }

    /// Returns the total supply of the given token, which must name one of the pools.
    pub fn mft_total_supply(&self, token_id: String) -> (r: Result<u128, ExchangeError>)
        requires
            named_pool(token_id@) is Some,
        ensures
            named_pool(token_id@)->0 < self.pools@.len() ==> r == Ok::<u128, ExchangeError>(pool_supply(&self.pools@[named_pool(token_id@)->0 as int]) as u128),
            named_pool(token_id@)->0 >= self.pools@.len() ==> r == Err::<u128, ExchangeError>(ExchangeError::NoPool),
    {
        match parse_token_id(token_id) {
            TokenOrPool::Pool(pool_id) => {
                if pool_id >= self.pools.len() as u64 {
                    return Err(ExchangeError::NoPool);
                }
                Ok(self.pools[pool_id as usize].share_total_balance())
            },
            TokenOrPool::Token(_) => Err(ExchangeError::Unsupported),
        }
    }

    /// Whether the account has an entry in the ledger of the pool the token id names; false
    /// for a plain token or a pool that does not exist.
    pub fn mft_has_registered(&self, token_id: String, account_id: &String) -> (r: bool)
        ensures
            r == match named_pool(token_id@) {
                Some(pid) => pid < self.pools@.len() && pool_ledger(&self.pools@[pid as int]).contains_key(account_id@),
                None => false,
            },
    {
        match parse_token_id(token_id) {
            TokenOrPool::Token(_) => false,
            TokenOrPool::Pool(pool_id) => {
                if pool_id >= self.pools.len() as u64 {
                    false
                } else {
                    self.pools[pool_id as usize].share_has_registered(account_id)
                }
            },
        }
    }

    /// Registers the account in the ledger of the pool the token id names. A plain token
    /// cannot be registered.
    pub fn mft_register(&mut self, token_id: String, account_id: &String) -> (r: Result<(), ExchangeError>)
        requires
            contract_wf(old(self)),
        ensures
            contract_wf(final(self)),
            final(self).pools@.len() == old(self).pools@.len(),
            old(self).state != crate::event::RunningState::Running ==> r == Err::<(), ExchangeError>(ExchangeError::ContractPaused),
            old(self).state == crate::event::RunningState::Running ==> match named_pool(token_id@) {
                None => r == Err::<(), ExchangeError>(ExchangeError::InvalidRegister),
                Some(pid) => if pid >= old(self).pools@.len() {
                    r == Err::<(), ExchangeError>(ExchangeError::NoPool)
                } else {
                    let ledger = pool_ledger(&old(self).pools@[pid as int]);
                    &&& ledger.contains_key(account_id@) ==> r == Err::<(), ExchangeError>(ExchangeError::LpAlreadyRegistered)
                    &&& !ledger.contains_key(account_id@) ==> r is Ok && pool_ledger(&final(self).pools@[pid as int]) == ledger.insert(account_id@, 0)
                    &&& forall|j: int| 0 <= j < old(self).pools@.len() && j != pid ==> #[trigger] final(self).pools@[j] == old(self).pools@[j]
                },
            },
    {
        self.assert_contract_running()?;
        match parse_token_id(token_id) {
            TokenOrPool::Token(_) => Err(ExchangeError::InvalidRegister),
            TokenOrPool::Pool(pool_id) => {
                if pool_id >= self.pools.len() as u64 {
                    return Err(ExchangeError::NoPool);
                }
                let idx = pool_id as usize;
                let mut pool = self.pools.remove(idx);
                assert(pool == old(self).pools@[idx as int]);
                let res = pool.share_register(account_id);
                self.pools.insert(idx, pool);
                proof {
                    assert forall|j: int| 0 <= j < self.pools@.len() implies #[trigger] pool_wf(&self.pools@[j]) by {
                        if j != idx {
                            assert(self.pools@[j] == old(self).pools@[j]);
                        }
                    }
                }
                res
            },
        }
    }
}

} // verus!
