//! Shadow records name a pool by a text id: `shadow_ref_v1-<pool id>`.
use crate::errors::ExchangeError;
use vstd::prelude::*;
use vstd::string::*;

verus! {

/// An amount of one token.
#[derive(Clone, Debug)]
pub struct TokenAmount {
    pub token_id: String,
    pub amount: u128,
}

/// The token amounts behind one unit of a pool's shares, at a time.
#[derive(Clone, Debug)]
pub struct UnitShareTokens {
    pub timestamp: u64,
    pub decimals: u8,
    pub tokens: Vec<TokenAmount>,
}

/// The character of a decimal digit.
pub open spec fn digit_char(d: nat) -> char {
    if d == 0 { '0' } else if d == 1 { '1' } else if d == 2 { '2' } else if d == 3 { '3' } else if d == 4 { '4' }
    else if d == 5 { '5' } else if d == 6 { '6' } else if d == 7 { '7' } else if d == 8 { '8' } else { '9' }
}

/// The value of a decimal digit character.
pub open spec fn char_digit(c: char) -> nat {
    if c == '0' { 0 } else if c == '1' { 1 } else if c == '2' { 2 } else if c == '3' { 3 } else if c == '4' { 4 }
    else if c == '5' { 5 } else if c == '6' { 6 } else if c == '7' { 7 } else if c == '8' { 8 } else { 9 }
}

/// A decimal digit character.
pub open spec fn is_digit(c: char) -> bool {
    c == '0' || c == '1' || c == '2' || c == '3' || c == '4' || c == '5' || c == '6' || c == '7' || c == '8' || c == '9'
}

/// The decimal representation of `n`, without leading zeros.
pub open spec fn decimal(n: nat) -> Seq<char>
    decreases n,
{
    if n < 10 {
        seq![digit_char(n)]
    } else {
        decimal(n / 10).push(digit_char(n % 10))
    }
}

/// The value of a string of decimal digits.
pub open spec fn digits_value(s: Seq<char>) -> nat
    decreases s.len(),
{
    if s.len() == 0 {
        0
    } else {
        digits_value(s.drop_last()) * 10 + char_digit(s.last())
    }
}

/// Text without its leading `+`, if any.
pub open spec fn number_body(s: Seq<char>) -> Seq<char> {
    if s.len() > 0 && s[0] == '+' { s.subrange(1, s.len() as int) } else { s }
}

/// Every character is a decimal digit.
pub open spec fn all_digits(b: Seq<char>) -> bool {
    forall|i: int| 0 <= i < b.len() ==> is_digit(#[trigger] b[i])
}

/// How text parses as a `u64`: an optional `+`, then at least one digit, and a value that fits.
pub open spec fn parse_u64(s: Seq<char>) -> Option<u64> {
    let body = number_body(s);
    if body.len() == 0 || !all_digits(body) || digits_value(body) > u64::MAX {
        None
    } else {
        Some(digits_value(body) as u64)
    }
}

/// The prefix of every shadow id.
pub open spec fn shadow_prefix() -> Seq<char> {
    seq!['s', 'h', 'a', 'd', 'o', 'w', '_', 'r', 'e', 'f', '_', 'v', '1', '-']
}

/// The first `-` of `s` is at `p`.
pub open spec fn first_dash(s: Seq<char>, p: int) -> bool {
    0 <= p < s.len() && s[p] == '-' && forall|j: int| 0 <= j < p ==> s[j] != '-'
}

/// The part of `s` after its first `-` (at `p`) and before the next one.
pub open spec fn second_part(s: Seq<char>, p: int) -> Seq<char> {
    let rest = s.subrange(p + 1, s.len() as int);
    if exists|j: int| 0 <= j < rest.len() && rest[j] == '-' {
        rest.subrange(0, choose|j: int| 0 <= j < rest.len() && rest[j] == '-' && forall|k: int| 0 <= k < j ==> rest[k] != '-')
    } else {
        rest
    }
}

/// A digit reads back as itself.
proof fn lemma_char_digit(d: nat)
    requires
        d < 10,
    ensures
        char_digit(digit_char(d)) == d,
        is_digit(digit_char(d)),
{
}

/// Decimal digits are digits, and read back as their number.
pub proof fn lemma_decimal_digits(n: nat)
    ensures
        decimal(n).len() >= 1,
        forall|i: int| 0 <= i < decimal(n).len() ==> is_digit(#[trigger] decimal(n)[i]),
        digits_value(decimal(n)) == n,
    decreases n,
{
    if n >= 10 {
        lemma_decimal_digits(n / 10);
        let d = decimal(n);
        assert(d.drop_last() == decimal(n / 10));
        assert(forall|i: int| 0 <= i < decimal(n / 10).len() ==> d[i] == decimal(n / 10)[i]);
        lemma_char_digit((n % 10) as nat);
        assert(digits_value(d) == (n / 10) * 10 + n % 10);
    } else {
        assert(decimal(n).drop_last() =~= Seq::<char>::empty());
        assert(digits_value(Seq::<char>::empty()) == 0);
        assert(decimal(n).last() == digit_char(n));
        lemma_char_digit(n);
    }
}

/// The text of a digit.
fn digit_str(d: u64) -> (s: &'static str)
    requires
        d < 10,
    ensures
        s@ == seq![digit_char(d as nat)],
{
    proof {
        reveal_strlit("0");
        reveal_strlit("1");
        reveal_strlit("2");
        reveal_strlit("3");
        reveal_strlit("4");
        reveal_strlit("5");
        reveal_strlit("6");
        reveal_strlit("7");
        reveal_strlit("8");
        reveal_strlit("9");
    }
    if d == 0 { "0" } else if d == 1 { "1" } else if d == 2 { "2" } else if d == 3 { "3" } else if d == 4 { "4" }
    else if d == 5 { "5" } else if d == 6 { "6" } else if d == 7 { "7" } else if d == 8 { "8" } else { "9" }
}

/// Appends the decimal text of `n` to `s`.
fn append_decimal(s: String, n: u64) -> (r: String)
    ensures
        r@ == s@ + decimal(n as nat),
    decreases n,
{
    if n < 10 {
        s.concat(digit_str(n))
    } else {
        let t = append_decimal(s, n / 10);
        let r = t.concat(digit_str(n % 10));
        assert(r@ =~= s@ + decimal(n as nat));
        r
    }
}

/// The shadow id of a pool.
pub fn pool_id_to_shadow_id(pool_id: u64) -> (r: String)
    ensures
        r@ == shadow_prefix() + decimal(pool_id as nat),
{
    proof {
        reveal_strlit("shadow_ref_v1-");
    }
    let prefix = String::from_str("shadow_ref_v1-");
    assert(prefix@ =~= shadow_prefix());
    append_decimal(prefix, pool_id)
}

/// Position of the first `-` at or after `from`, else the length.
fn find_dash(s: &str, from: usize) -> (r: usize)
    requires
        from <= s@.len(),
    ensures
        from <= r <= s@.len(),
        r < s@.len() ==> s@[r as int] == '-',
        forall|j: int| from <= j < r ==> s@[j] != '-',
{
    let n = s.unicode_len();
    let mut i = from;
    while i < n
        invariant
            n == s@.len(),
            from <= i <= n,
            forall|j: int| from <= j < i ==> s@[j] != '-',
        decreases n - i,
    {
        if s.get_char(i) == '-' {
            return i;
        }
        i = i + 1;
    }
    i
}

/// Parses decimal digits of `s[from..to]` into a `u64`.
pub(crate) fn parse_digits(s: &str, from: usize, to: usize) -> (r: Option<u64>)
    requires
        from <= to <= s@.len(),
    ensures
        r == parse_u64(s@.subrange(from as int, to as int)),
{
    let ghost seg = s@.subrange(from as int, to as int);
    let mut start = from;
    if from < to && s.get_char(from) == '+' {
        start = from + 1;
    }
    let ghost body = s@.subrange(start as int, to as int);
    assert(body == number_body(seg));
    if start == to {
        return None;
    }
    let mut acc: u64 = 0;
    let mut i = start;
    while i < to
        invariant
            from <= start <= i <= to <= s@.len(),
            start < to,
            seg == s@.subrange(from as int, to as int),
            body == s@.subrange(start as int, to as int),
            body == number_body(seg),
            acc as nat == digits_value(s@.subrange(start as int, i as int)),
            forall|j: int| start <= j < i ==> is_digit(#[trigger] s@[j]),
        decreases to - i,
    {
        let c = s.get_char(i);
        let ghost pre = s@.subrange(start as int, i as int);
        let ghost next = s@.subrange(start as int, i + 1);
        assert(next.drop_last() == pre);
        assert(next.last() == c);
        let d: u64 = if c == '0' { 0 } else if c == '1' { 1 } else if c == '2' { 2 } else if c == '3' { 3 }
            else if c == '4' { 4 } else if c == '5' { 5 } else if c == '6' { 6 } else if c == '7' { 7 }
            else if c == '8' { 8 } else if c == '9' { 9 } else {
                proof {
                    let j = (i - start) as int;
                    assert(body[j] == c);
                    assert(!is_digit(body[j]));
                    assert(!all_digits(body));
                }
                return None;
            };
        assert(d as nat == char_digit(c));
        if acc > (u64::MAX - d) / 10 {
            proof {
                assert(acc as nat * 10 + d > u64::MAX) by (nonlinear_arith)
                    requires
                        acc > (u64::MAX - d) / 10,
                        d <= 9,
                ;
                lemma_digits_value_prefix_le(body, (i + 1 - start) as int);
                assert(body.subrange(0, (i + 1 - start) as int) == next);
            }
            return None;
        }
        acc = acc * 10 + d;
        i = i + 1;
    }
    assert(s@.subrange(start as int, i as int) == body);
    proof {
        assert forall|j: int| 0 <= j < body.len() implies is_digit(#[trigger] body[j]) by {
            assert(body[j] == s@[start + j]);
        }
    }
    Some(acc)
}

/// A prefix of digits reads as no more than the whole.
proof fn lemma_digits_value_prefix_le(s: Seq<char>, k: int)
    requires
        0 <= k <= s.len(),
    ensures
        digits_value(s.subrange(0, k)) <= digits_value(s),
    decreases s.len(),
{
    if k < s.len() {
        assert(s.drop_last().subrange(0, k) == s.subrange(0, k));
        lemma_digits_value_prefix_le(s.drop_last(), k);
    } else {
        assert(s.subrange(0, k) == s);
    }
}

/// The pool id in a shadow id: the part after the first `-` (up to any next `-`), read as
/// a number. Refused where that part is not a number that fits in 64 bits.
pub fn shadow_id_to_pool_id(shadow_id: &String) -> (r: Result<u64, ExchangeError>)
    requires
        exists|p: int| first_dash(shadow_id@, p),
    ensures
        ({
            let p = choose|p: int| first_dash(shadow_id@, p);
            match parse_u64(second_part(shadow_id@, p)) {
                Some(v) => r == Ok::<u64, ExchangeError>(v),
                None => r == Err::<u64, ExchangeError>(ExchangeError::IllegalPoolId),
            }
        }),
{
    let s = shadow_id.as_str();
    let n = s.unicode_len();
    let p = find_dash(s, 0);
    let ghost pp = choose|p: int| first_dash(shadow_id@, p);
    assert(p == pp) by {
        if p < pp {
            assert(s@[p as int] != '-');
        }
        if pp < p {
            assert(s@[pp] != '-');
        }
    }
    let q = find_dash(s, p + 1);
    proof {
        let rest = shadow_id@.subrange(p + 1, n as int);
        if q < n {
            let j = (q - p - 1) as int;
            assert(rest[j] == '-');
            let c = choose|j: int| 0 <= j < rest.len() && rest[j] == '-' && forall|k: int| 0 <= k < j ==> rest[k] != '-';
            assert(c == j) by {
                if c < j {
                    assert(rest[c] == s@[p + 1 + c]);
                }
                if j < c {
                    assert(rest[j] == '-');
                }
            }
            assert(second_part(shadow_id@, p as int) =~= s@.subrange(p + 1, q as int));
        } else {
            assert forall|j: int| 0 <= j < rest.len() implies rest[j] != '-' by {
                assert(rest[j] == s@[p + 1 + j]);
            }
            assert(second_part(shadow_id@, p as int) =~= s@.subrange(p + 1, q as int));
        }
    }
    match parse_digits(s, p + 1, q) {
        Some(v) => Ok(v),
        None => Err(ExchangeError::IllegalPoolId),
    }
}

/// Reading back the shadow id of a pool gives the pool.
pub proof fn lemma_shadow_id_round_trip(pool_id: u64)
    ensures
        ({
            let s = shadow_prefix() + decimal(pool_id as nat);
            &&& first_dash(s, 13)
            &&& parse_u64(second_part(s, 13)) == Some(pool_id)
        }),
{
    let d = decimal(pool_id as nat);
    lemma_decimal_digits(pool_id as nat);
    let s = shadow_prefix() + d;
    assert(s.len() == 14 + d.len());
    assert(s[13] == '-');
    assert forall|j: int| 0 <= j < 13 implies s[j] != '-' by {
        assert(s[j] == shadow_prefix()[j]);
    }
    let rest = s.subrange(14, s.len() as int);
    assert(rest =~= d);
    assert forall|j: int| 0 <= j < rest.len() implies rest[j] != '-' by {
        assert(is_digit(d[j]));
    }
    assert(second_part(s, 13) == rest);
    assert(number_body(d) == d) by {
        assert(is_digit(d[0]));
    }
    assert(all_digits(d));
}


} // verus!
