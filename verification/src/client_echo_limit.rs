//! Whitelists that limit who may have swap results echoed back to a client contract.
//! An entry is an exact account id, or a wildcard `*.suffix` matching every account
//! ending in `.suffix`.
use crate::contract::Contract;
use crate::errors::ExchangeError;
use crate::owner::owner_or_guardian;
use vstd::prelude::*;
use vstd::string::*;

verus! {

/// The views of a list of strings.
pub open spec fn list_view(v: Seq<String>) -> Seq<Seq<char>> {
    v.map_values(|s: String| s@)
}

/// `suffix` ends `s`.
pub open spec fn ends_with(s: Seq<char>, suffix: Seq<char>) -> bool {
    suffix.len() <= s.len() && s.subrange(s.len() - suffix.len(), s.len() as int) == suffix
}

/// A pattern `*x` matches every account id ending in `x`.
pub open spec fn wildcard_match(pattern: Seq<char>, account: Seq<char>) -> bool {
    pattern.len() >= 1 && pattern[0] == '*' && ends_with(account, pattern.subrange(1, pattern.len() as int))
}

/// The account id is in the whitelist, or matches one of its wildcard entries.
pub open spec fn whitelisted(whitelist: Seq<Seq<char>>, account: Seq<char>) -> bool {
    exists|i: int| 0 <= i < whitelist.len() && (whitelist[i] == account || wildcard_match(#[trigger] whitelist[i], account))
}

/// Whether `s` ends with `suffix[from..]`.
pub(crate) fn ends_with_from(s: &str, suffix: &str, from: usize) -> (r: bool)
    requires
        from <= suffix@.len(),
    ensures
        r == ends_with(s@, suffix@.subrange(from as int, suffix@.len() as int)),
{
    let n = s.unicode_len();
    let m = suffix.unicode_len();
    let k = m - from;
    if k > n {
        return false;
    }
    let ghost a = s@.subrange(n - k, n as int);
    let ghost b = suffix@.subrange(from as int, m as int);
    let mut j: usize = 0;
    while j < k
        invariant
            n == s@.len(),
            m == suffix@.len(),
            k == m - from,
            k <= n,
            j <= k,
            a == s@.subrange(n - k, n as int),
            b == suffix@.subrange(from as int, m as int),
            forall|t: int| 0 <= t < j ==> #[trigger] a[t] == b[t],
        decreases k - j,
    {
        if s.get_char(n - k + j) != suffix.get_char(from + j) {
            assert(a[j as int] != b[j as int]);
            return false;
        }
        j = j + 1;
    }
    assert(a =~= b);
    true
}

/// Whether a pattern is a wildcard matching the account id.
fn pattern_matches(pattern: &String, account_id: &String) -> (r: bool)
    ensures
        r == wildcard_match(pattern@, account_id@),
{
    let p = pattern.as_str();
    if p.unicode_len() >= 1 && p.get_char(0) == '*' {
        ends_with_from(account_id.as_str(), p, 1)
    } else {
        false
    }
}

/// Whether the account id is whitelisted, exactly or by a wildcard entry.
pub fn matches_wildcard_pattern(whitelist: &Vec<String>, account_id: &String) -> (r: bool)
    ensures
        r == whitelisted(list_view(whitelist@), account_id@),
{
    let ghost wl = list_view(whitelist@);
    // First check for exact match
    let mut i: usize = 0;
    while i < whitelist.len()
        invariant
            wl == list_view(whitelist@),
            i <= whitelist.len(),
            forall|j: int| 0 <= j < i ==> whitelist@[j]@ != account_id@,
        decreases whitelist.len() - i,
    {
        if whitelist[i] == *account_id {
            assert(wl[i as int] == account_id@);
            return true;
        }
        i = i + 1;
    }
    // Then check for prefix wildcard matches
    let mut i: usize = 0;
    while i < whitelist.len()
        invariant
            wl == list_view(whitelist@),
            i <= whitelist.len(),
            forall|j: int| 0 <= j < whitelist.len() ==> whitelist@[j]@ != account_id@,
            forall|j: int| 0 <= j < i ==> !wildcard_match(whitelist@[j]@, account_id@),
        decreases whitelist.len() - i,
    {
        if pattern_matches(&whitelist[i], account_id) {
            assert(wildcard_match(wl[i as int], account_id@));
            return true;
        }
        i = i + 1;
    }
    assert forall|j: int| 0 <= j < wl.len() implies !(wl[j] == account_id@ || wildcard_match(#[trigger] wl[j], account_id@)) by {
        assert(wl[j] == whitelist@[j]@);
    }
    false
}

/// Checks that a client echo of `token_id` to `sender_id` is allowed: a sender in the secure
/// whitelist always is; any other needs both the token and the sender in their whitelists.
pub fn assert_client_echo_valid(
    token_id: &String,
    sender_id: &String,
    secure_sender_whitelist: &Vec<String>,
    client_echo_token_id_whitelist: &Vec<String>,
    client_echo_sender_id_whitelist: &Vec<String>,
) -> (r: Result<(), ExchangeError>)
    ensures
        whitelisted(list_view(secure_sender_whitelist@), sender_id@) ==> r is Ok,
        !whitelisted(list_view(secure_sender_whitelist@), sender_id@) ==> {
            &&& !whitelisted(list_view(client_echo_token_id_whitelist@), token_id@) ==> r == Err::<(), ExchangeError>(ExchangeError::InvalidClientEchoTokenId)
            &&& whitelisted(list_view(client_echo_token_id_whitelist@), token_id@) && !whitelisted(list_view(client_echo_sender_id_whitelist@), sender_id@) ==> r == Err::<(), ExchangeError>(ExchangeError::InvalidClientEchoSenderId)
            &&& whitelisted(list_view(client_echo_token_id_whitelist@), token_id@) && whitelisted(list_view(client_echo_sender_id_whitelist@), sender_id@) ==> r is Ok
        },
{
    // If sender is in secure sender whitelist (including wildcard matches), skip token validation
    if matches_wildcard_pattern(secure_sender_whitelist, sender_id) {
        return Ok(());
    }
    // Otherwise, check both token and sender whitelists (including wildcard matches)
    if !matches_wildcard_pattern(client_echo_token_id_whitelist, token_id) {
        return Err(ExchangeError::InvalidClientEchoTokenId);
    }
    if !matches_wildcard_pattern(client_echo_sender_id_whitelist, sender_id) {
        return Err(ExchangeError::InvalidClientEchoSenderId);
    }
    Ok(())
}

/// An id starting with `*` must start with `*.`.
pub open spec fn valid_wildcard(id: Seq<char>) -> bool {
    id.len() >= 1 && id[0] == '*' ==> id.len() >= 2 && id[1] == '.'
}

/// Whether a string is among a list of them.
pub(crate) fn contains_string(v: &Vec<String>, s: &String, upto: usize) -> (r: bool)
    requires
        upto <= v.len(),
    ensures
        r == exists|i: int| 0 <= i < upto && #[trigger] v@[i]@ == s@,
{
    let mut i: usize = 0;
    while i < upto
        invariant
            upto <= v.len(),
            i <= upto,
            forall|j: int| 0 <= j < i ==> v@[j]@ != s@,
        decreases upto - i,
    {
        if v[i] == *s {
            return true;
        }
        i = i + 1;
    }
    false
}

/// Whether the wildcard rule holds of an id.
fn check_wildcard(id: &String) -> (r: bool)
    ensures
        r == valid_wildcard(id@),
{
    let s = id.as_str();
    let n = s.unicode_len();
    if n >= 1 && s.get_char(0) == '*' {
        n >= 2 && s.get_char(1) == '.'
    } else {
        true
    }
}

/// Whether `ids` can be added to a whitelist: each well formed where wildcards are checked,
/// not present, and not given twice.
pub open spec fn can_extend(whitelist: Seq<String>, ids: Seq<String>, check_wildcard_ids: bool) -> bool {
    forall|k: int| 0 <= k < ids.len() ==> {
        &&& (check_wildcard_ids ==> valid_wildcard(#[trigger] ids[k]@))
        &&& !list_view(whitelist).contains(ids[k]@)
        &&& !list_view(ids.subrange(0, k)).contains(ids[k]@)
    }
}

/// Whether `ids` can be removed from a whitelist: each present, and not given twice.
pub open spec fn can_remove(whitelist: Seq<String>, ids: Seq<String>) -> bool {
    forall|k: int| 0 <= k < ids.len() ==> {
        &&& list_view(whitelist).contains(#[trigger] ids[k]@)
        &&& !list_view(ids.subrange(0, k)).contains(ids[k]@)
    }
}

/// Adds ids to a whitelist. With `check_wildcard`, an id starting with `*` must start with
/// `*.`; an id already present, or given twice, is refused. A refusal changes nothing.
pub fn extend_whitelist(whitelist: &mut Vec<String>, ids: Vec<String>, check_wildcard_ids: bool) -> (r: Result<(), ExchangeError>)
    ensures
        r is Err ==> final(whitelist)@ == old(whitelist)@,
        r is Ok ==> final(whitelist)@ == old(whitelist)@ + ids@,
        r is Ok <==> can_extend(old(whitelist)@, ids@, check_wildcard_ids),
{
    let mut k: usize = 0;
    while k < ids.len()
        invariant
            k <= ids.len(),
            *whitelist == *old(whitelist),
            forall|t: int| 0 <= t < k ==> {
                &&& (check_wildcard_ids ==> valid_wildcard(#[trigger] ids@[t]@))
                &&& !list_view(whitelist@).contains(ids@[t]@)
                &&& !list_view(ids@.subrange(0, t)).contains(ids@[t]@)
            },
        decreases ids.len() - k,
    {
        let id = &ids[k];
        if check_wildcard_ids && !check_wildcard(id) {
            return Err(ExchangeError::InvalidWildcard);
        }
        if contains_string(whitelist, id, whitelist.len()) {
            proof {
                let j = choose|j: int| 0 <= j < whitelist@.len() && #[trigger] whitelist@[j]@ == id@;
                assert(list_view(whitelist@)[j] == id@);
            }
            return Err(ExchangeError::AlreadyInWhitelist);
        }
        if contains_string(&ids, id, k) {
            proof {
                let j = choose|j: int| 0 <= j < k && #[trigger] ids@[j]@ == id@;
                assert(list_view(ids@.subrange(0, k as int))[j] == id@);
            }
            return Err(ExchangeError::AlreadyInWhitelist);
        }
        proof {
            assert forall|j: int| 0 <= j < list_view(whitelist@).len() implies list_view(whitelist@)[j] != ids@[k as int]@ by {
                assert(whitelist@[j]@ != ids@[k as int]@);
            }
            assert forall|j: int| 0 <= j < k implies list_view(ids@.subrange(0, k as int))[j] != ids@[k as int]@ by {
                assert(ids@[j]@ != ids@[k as int]@);
            }
        }
        k = k + 1;
    }
    let mut ids = ids;
    whitelist.append(&mut ids);
    Ok(())
}

/// Removes ids from a whitelist; an id not present, or given twice, is refused. A refusal
/// changes nothing; on success exactly the entries equal to a given id are gone.
pub fn remove_from_whitelist(whitelist: &mut Vec<String>, ids: Vec<String>) -> (r: Result<(), ExchangeError>)
    ensures
        r is Err ==> final(whitelist)@ == old(whitelist)@,
        r is Ok <==> can_remove(old(whitelist)@, ids@),
        r is Ok ==> list_view(final(whitelist)@) == list_view(old(whitelist)@).filter(|x: Seq<char>| !list_view(ids@).contains(x)),
{
    let mut k: usize = 0;
    while k < ids.len()
        invariant
            k <= ids.len(),
            *whitelist == *old(whitelist),
            forall|t: int| 0 <= t < k ==> {
                &&& list_view(whitelist@).contains(#[trigger] ids@[t]@)
                &&& !list_view(ids@.subrange(0, t)).contains(ids@[t]@)
            },
        decreases ids.len() - k,
    {
        let id = &ids[k];
        if !contains_string(whitelist, id, whitelist.len()) {
            proof {
                if list_view(whitelist@).contains(id@) {
                    let j = choose|j: int| 0 <= j < list_view(whitelist@).len() && list_view(whitelist@)[j] == id@;
                    assert(whitelist@[j]@ == id@);
                }
            }
            return Err(ExchangeError::NotInWhitelist);
        }
        if contains_string(&ids, id, k) {
            proof {
                let j = choose|j: int| 0 <= j < k && #[trigger] ids@[j]@ == id@;
                assert(list_view(ids@.subrange(0, k as int))[j] == id@);
            }
            return Err(ExchangeError::NotInWhitelist);
        }
        proof {
            let j = choose|j: int| 0 <= j < whitelist@.len() && #[trigger] whitelist@[j]@ == id@;
            assert(list_view(whitelist@)[j] == id@);
            assert forall|j: int| 0 <= j < k implies list_view(ids@.subrange(0, k as int))[j] != ids@[k as int]@ by {
                assert(ids@[j]@ != ids@[k as int]@);
            }
        }
        k = k + 1;
    }
    *whitelist = without_ids(whitelist, &ids);
    Ok(())
}

/// The entries of `list` equal to none of `ids`, in their order.
pub(crate) fn without_ids(list: &Vec<String>, ids: &Vec<String>) -> (r: Vec<String>)
    ensures
        list_view(r@) == list_view(list@).filter(|x: Seq<char>| !list_view(ids@).contains(x)),
{
    // keep the entries not given
    let ghost idv = list_view(ids@);
    let mut kept: Vec<String> = Vec::new();
    let mut i: usize = 0;
    while i < list.len()
        invariant
            i <= list.len(),
            idv == list_view(ids@),
            list_view(kept@) == list_view(list@.subrange(0, i as int)).filter(|x: Seq<char>| !idv.contains(x)),
        decreases list.len() - i,
    {
        let found = contains_string(ids, &list[i], ids.len());
        proof {
            let pre = list_view(list@.subrange(0, i as int));
            let post = list_view(list@.subrange(0, i + 1));
            assert(post == pre.push(list@[i as int]@));
            pre.lemma_filter_push(list@[i as int]@, |x: Seq<char>| !idv.contains(x));
            if found {
                let j = choose|j: int| 0 <= j < ids@.len() && #[trigger] ids@[j]@ == list@[i as int]@;
                assert(idv[j] == list@[i as int]@);
            } else {
                if idv.contains(list@[i as int]@) {
                    let j = choose|j: int| 0 <= j < idv.len() && idv[j] == list@[i as int]@;
                    assert(ids@[j]@ == list@[i as int]@);
                }
            }
        }
        if !found {
            let s = list[i].clone();
            kept.push(s);
            proof {
                assert(list_view(kept@) == list_view(kept@.drop_last()).push(list@[i as int]@));
            }
        }
        i = i + 1;
    }
    assert(list@.subrange(0, list@.len() as int) == list@);
    kept
}

/// Keeping the entries for which `p` holds keeps all of `s` where it holds of each, and
/// none where it holds of none.
proof fn lemma_filter_uniform(s: Seq<Seq<char>>, p: spec_fn(Seq<char>) -> bool)
    ensures
        (forall|i: int| 0 <= i < s.len() ==> p(#[trigger] s[i])) ==> s.filter(p) == s,
        (forall|i: int| 0 <= i < s.len() ==> !p(#[trigger] s[i])) ==> s.filter(p) == Seq::<Seq<char>>::empty(),
    decreases s.len(),
{
    if s.len() == 0 {
        reveal(Seq::filter);
        assert(s.filter(p) =~= Seq::<Seq<char>>::empty());
    } else {
        let init = s.drop_last();
        lemma_filter_uniform(init, p);
        assert(init.push(s.last()) =~= s);
        init.lemma_filter_push(s.last(), p);
        if forall|i: int| 0 <= i < s.len() ==> p(#[trigger] s[i]) {
            assert(p(s[s.len() - 1]));
            assert forall|i: int| 0 <= i < init.len() implies p(#[trigger] init[i]) by {
                assert(p(s[i]));
            }
        }
        if forall|i: int| 0 <= i < s.len() ==> !p(#[trigger] s[i]) {
            assert(!p(s[s.len() - 1]));
            assert forall|i: int| 0 <= i < init.len() implies !p(#[trigger] init[i]) by {
                assert(!p(s[i]));
            }
        }
    }
}

/// Removing from a whitelist the ids just added to it gives the whitelist back.
pub proof fn lemma_whitelist_extend_then_remove(whitelist: Seq<String>, ids: Seq<String>, check_wildcard_ids: bool)
    requires
        can_extend(whitelist, ids, check_wildcard_ids),
    ensures
        can_remove(whitelist + ids, ids),
        list_view(whitelist + ids).filter(|x: Seq<char>| !list_view(ids).contains(x)) == list_view(whitelist),
{
    let p = |x: Seq<char>| !list_view(ids).contains(x);
    assert(list_view(whitelist + ids) =~= list_view(whitelist) + list_view(ids));
    Seq::filter_distributes_over_add(list_view(whitelist), list_view(ids), p);
    assert forall|i: int| 0 <= i < list_view(whitelist).len() implies p(#[trigger] list_view(whitelist)[i]) by {
        if list_view(ids).contains(list_view(whitelist)[i]) {
            let k = choose|k: int| 0 <= k < list_view(ids).len() && list_view(ids)[k] == list_view(whitelist)[i];
            assert(ids[k]@ == list_view(whitelist)[i]);
            assert(!list_view(whitelist).contains(ids[k]@));
        }
    }
    assert forall|i: int| 0 <= i < list_view(ids).len() implies !p(#[trigger] list_view(ids)[i]) by {
        assert(list_view(ids).contains(list_view(ids)[i]));
    }
    lemma_filter_uniform(list_view(whitelist), p);
    lemma_filter_uniform(list_view(ids), p);
    assert(list_view(whitelist) + Seq::<Seq<char>>::empty() =~= list_view(whitelist));
    assert forall|k: int| 0 <= k < ids.len() implies {
        &&& list_view(whitelist + ids).contains(#[trigger] ids[k]@)
        &&& !list_view(ids.subrange(0, k)).contains(ids[k]@)
    } by {
        assert(list_view(whitelist + ids)[whitelist.len() + k] == ids[k]@);
        assert(!list_view(ids.subrange(0, k)).contains(ids[k]@));
    }
}

/// A whitelist after a request by `caller` with `attached` yoctoNEAR to add `ids`: refused
/// without exactly one yoctoNEAR or from anyone but the owner and the guardians; then the ids
/// are appended where all can be added, and nothing changes otherwise.
pub open spec fn whitelist_extended(c: &Contract, caller: Seq<char>, attached: u128, whitelist: Seq<String>, ids: Seq<String>, check_wildcard_ids: bool, fwhitelist: Seq<String>, r: Result<(), ExchangeError>) -> bool {
    &&& attached != 1 ==> r == Err::<(), ExchangeError>(ExchangeError::OneYoctoRequired)
    &&& attached == 1 && !owner_or_guardian(c, caller) ==> r == Err::<(), ExchangeError>(ExchangeError::NotAllowed)
    &&& attached == 1 && owner_or_guardian(c, caller) ==> (r is Ok <==> can_extend(whitelist, ids, check_wildcard_ids))
    &&& r is Ok ==> fwhitelist == whitelist + ids
    &&& r is Err ==> fwhitelist == whitelist
}

/// A whitelist after a request by `caller` with `attached` yoctoNEAR to remove `ids`: refused
/// without exactly one yoctoNEAR or from anyone but the owner; then the entries equal to the
/// ids go where all are present, and nothing changes otherwise.
pub open spec fn whitelist_reduced(c: &Contract, caller: Seq<char>, attached: u128, whitelist: Seq<String>, ids: Seq<String>, fwhitelist: Seq<String>, r: Result<(), ExchangeError>) -> bool {
    &&& attached != 1 ==> r == Err::<(), ExchangeError>(ExchangeError::OneYoctoRequired)
    &&& attached == 1 && caller != c.owner_id@ ==> r == Err::<(), ExchangeError>(ExchangeError::NotAllowed)
    &&& attached == 1 && caller == c.owner_id@ ==> (r is Ok <==> can_remove(whitelist, ids))
    &&& r is Ok ==> list_view(fwhitelist) == list_view(whitelist).filter(|x: Seq<char>| !list_view(ids).contains(x))
    &&& r is Err ==> fwhitelist == whitelist
}

impl Contract {
    /// Extends a whitelist for the owner or a guardian.
    fn extend_guarded(&self, caller: &String, attached_deposit: u128, whitelist: &mut Vec<String>, ids: Vec<String>, check_wildcard_ids: bool) -> (r: Result<(), ExchangeError>)
        ensures
            whitelist_extended(self, caller@, attached_deposit, old(whitelist)@, ids@, check_wildcard_ids, final(whitelist)@, r),
    {
        Self::assert_one_yocto(attached_deposit)?;
        self.assert_owner_or_guardians(caller)?;
        extend_whitelist(whitelist, ids, check_wildcard_ids)
    }

    /// Reduces a whitelist for the owner.
    fn remove_by_owner(&self, caller: &String, attached_deposit: u128, whitelist: &mut Vec<String>, ids: Vec<String>) -> (r: Result<(), ExchangeError>)
        ensures
            whitelist_reduced(self, caller@, attached_deposit, old(whitelist)@, ids@, final(whitelist)@, r),
    {
        Self::assert_one_yocto(attached_deposit)?;
        self.assert_owner(caller)?;
        remove_from_whitelist(whitelist, ids)
    }

    /// Adds token ids, or wildcards `*.suffix`, whose swap results may be echoed back.
    pub fn extend_client_echo_token_id_whitelist(&self, caller: &String, attached_deposit: u128, whitelist: &mut Vec<String>, token_ids: Vec<String>) -> (r: Result<(), ExchangeError>)
        ensures
            whitelist_extended(self, caller@, attached_deposit, old(whitelist)@, token_ids@, true, final(whitelist)@, r),
    {
        self.extend_guarded(caller, attached_deposit, whitelist, token_ids, true)
    }

    /// Removes token ids whose swap results may be echoed back.
    pub fn remove_client_echo_token_id_whitelist(&self, caller: &String, attached_deposit: u128, whitelist: &mut Vec<String>, token_ids: Vec<String>) -> (r: Result<(), ExchangeError>)
        ensures
            whitelist_reduced(self, caller@, attached_deposit, old(whitelist)@, token_ids@, final(whitelist)@, r),
    {
        self.remove_by_owner(caller, attached_deposit, whitelist, token_ids)
    }

    /// Adds senders that may ask for an echo.
    pub fn extend_client_echo_sender_id_whitelist(&self, caller: &String, attached_deposit: u128, whitelist: &mut Vec<String>, sender_ids: Vec<String>) -> (r: Result<(), ExchangeError>)
        ensures
            whitelist_extended(self, caller@, attached_deposit, old(whitelist)@, sender_ids@, false, final(whitelist)@, r),
    {
        self.extend_guarded(caller, attached_deposit, whitelist, sender_ids, false)
    }

    /// Removes senders that may ask for an echo.
    pub fn remove_client_echo_sender_id_whitelist(&self, caller: &String, attached_deposit: u128, whitelist: &mut Vec<String>, sender_ids: Vec<String>) -> (r: Result<(), ExchangeError>)
        ensures
            whitelist_reduced(self, caller@, attached_deposit, old(whitelist)@, sender_ids@, final(whitelist)@, r),
    {
        self.remove_by_owner(caller, attached_deposit, whitelist, sender_ids)
    }

    /// Adds secure senders, or wildcards `*.suffix`.
    pub fn extend_secure_sender_whitelist(&self, caller: &String, attached_deposit: u128, whitelist: &mut Vec<String>, sender_ids: Vec<String>) -> (r: Result<(), ExchangeError>)
        ensures
            whitelist_extended(self, caller@, attached_deposit, old(whitelist)@, sender_ids@, true, final(whitelist)@, r),
    {
        self.extend_guarded(caller, attached_deposit, whitelist, sender_ids, true)
    }

    /// Removes secure senders.
    pub fn remove_secure_sender_whitelist(&self, caller: &String, attached_deposit: u128, whitelist: &mut Vec<String>, sender_ids: Vec<String>) -> (r: Result<(), ExchangeError>)
        ensures
            whitelist_reduced(self, caller@, attached_deposit, old(whitelist)@, sender_ids@, final(whitelist)@, r),
    {
        self.remove_by_owner(caller, attached_deposit, whitelist, sender_ids)
    }
}

} // verus!
