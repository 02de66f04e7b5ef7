//! Pyth price feeds: their identifiers, written as hex, and their prices.
use crate::errors::ExchangeError;
use vstd::prelude::*;
use vstd::utf8::{encode_utf8, is_ascii_chars, is_ascii_chars_encode_utf8};

verus! {

#[verifier::external_type_specification]
#[verifier::external_body]
pub struct ExFromHexError(hex::FromHexError);

/// A price reported by Pyth: `price * 10^expo`.
#[derive(Clone, Copy, Debug)]
pub struct Price {
    pub price: i64,
    /// Confidence interval around the price
    pub conf: u64,
    /// The exponent
    pub expo: i32,
    /// Unix timestamp of when this price was computed
    pub publish_time: i64,
}

/// The 32-byte identifier of a Pyth price feed.
#[derive(Clone, Copy, Debug, PartialEq, Eq, Hash)]
pub struct PriceIdentifier(pub [u8; 32]);

/// The lowercase hex digit of `v < 16`.
pub open spec fn hex_digit(v: nat) -> char {
    if v < 10 {
        (48 + v) as char
    } else {
        (87 + v) as char
    }
}

/// Two lowercase hex digits for each byte, the high nibble first.
pub open spec fn hex_chars(bs: Seq<u8>) -> Seq<char> {
    Seq::new(
        2 * bs.len(),
        |k: int|
            if k % 2 == 0 {
                hex_digit((bs[k / 2] / 16) as nat)
            } else {
                hex_digit((bs[k / 2] % 16) as nat)
            },
    )
}

/// An ASCII hex digit, either case.
pub open spec fn is_hex_byte(b: u8) -> bool {
    (48 <= b <= 57) || (97 <= b <= 102) || (65 <= b <= 70)
}

/// The value of an ASCII hex digit.
pub open spec fn hex_byte_val(b: u8) -> nat {
    if 48 <= b <= 57 {
        (b - 48) as nat
    } else if 97 <= b <= 102 {
        (b - 87) as nat
    } else {
        (b - 55) as nat
    }
}

/// 64 hex digits: the text of 32 bytes.
pub open spec fn valid_hex_32(bs: Seq<u8>) -> bool {
    bs.len() == 64 && forall|i: int| 0 <= i < 64 ==> #[trigger] is_hex_byte(bs[i])
}

/// The 32 bytes that 64 hex digits stand for.
pub open spec fn hex_decoded(bs: Seq<u8>) -> Seq<u8> {
    Seq::new(32, |i: int| (16 * hex_byte_val(bs[2 * i]) + hex_byte_val(bs[2 * i + 1])) as u8)
}

/// `hex::encode`: each byte becomes two lowercase hex digits, the high nibble first.
#[verifier::external_body]
fn hex_encode(bytes: &[u8; 32]) -> (r: String)
    ensures
        r@ == hex_chars(bytes@),
{
    hex::encode(bytes)
}

/// `hex::decode_to_slice` into 32 bytes: succeeds exactly on 64 hex digits of either case,
/// each pair giving one byte, the high nibble first.
#[verifier::external_body]
fn hex_decode_to_slice(data: &str, out: &mut [u8; 32]) -> (r: Result<(), hex::FromHexError>)
    ensures
        r is Ok <==> valid_hex_32(encode_utf8(data@)),
        r is Ok ==> final(out)@ == hex_decoded(encode_utf8(data@)),
{
    hex::decode_to_slice(data, out)
}

impl PriceIdentifier {
    /// The identifier written as 64 hex digits, either case.
    pub fn from_hex(value: &String) -> (r: Result<PriceIdentifier, ExchangeError>)
        ensures
            encode_utf8(value@).len() as usize != 64 ==> r == Err::<PriceIdentifier, ExchangeError>(ExchangeError::PriceIdentifierLength),
            encode_utf8(value@).len() as usize == 64 && !valid_hex_32(encode_utf8(value@)) ==> r == Err::<PriceIdentifier, ExchangeError>(ExchangeError::PriceIdentifierHex),
            valid_hex_32(encode_utf8(value@)) ==> (r matches Ok(id) && id.0@ == hex_decoded(encode_utf8(value@))),
    {
        let s = value.as_str();
        if s.len() != 64 {
            return Err(ExchangeError::PriceIdentifierLength);
        }
        let mut bytes = [0u8; 32];
        match hex_decode_to_slice(s, &mut bytes) {
            Ok(()) => Ok(PriceIdentifier(bytes)),
            Err(_) => Err(ExchangeError::PriceIdentifierHex),
        }
    }

    /// The identifier as 64 lowercase hex digits.
    pub fn to_string(&self) -> (r: String)
        ensures
            r@ == hex_chars(self.0@),
    {
        hex_encode(&self.0)
    }
}

/// A hex digit reads back as its value.
proof fn lemma_hex_digit_val(v: nat)
    requires
        v < 16,
    ensures
        is_hex_byte(hex_digit(v) as u8),
        hex_byte_val(hex_digit(v) as u8) == v,
        '\0' <= hex_digit(v) <= '\u{7f}',
{
}

/// Writing an identifier as hex and reading it back gives the identifier.
pub proof fn lemma_price_identifier_hex_round_trip(id: PriceIdentifier)
    ensures
        valid_hex_32(encode_utf8(hex_chars(id.0@))),
        hex_decoded(encode_utf8(hex_chars(id.0@))) == id.0@,
{
    let bs = id.0@;
    let cs = hex_chars(bs);
    assert(bs.len() == 32);
    assert forall|k: int| 0 <= k < cs.len() implies '\0' <= #[trigger] cs[k] <= '\u{7f}' && is_hex_byte(cs[k] as u8) && hex_byte_val(cs[k] as u8) == (if k % 2 == 0 { bs[k / 2] / 16 } else { bs[k / 2] % 16 }) by {
        if k % 2 == 0 {
            lemma_hex_digit_val((bs[k / 2] / 16) as nat);
        } else {
            lemma_hex_digit_val((bs[k / 2] % 16) as nat);
        }
    }
    assert(is_ascii_chars(cs));
    is_ascii_chars_encode_utf8(cs);
    let e = encode_utf8(cs);
    assert forall|i: int| 0 <= i < 64 implies #[trigger] is_hex_byte(e[i]) by {
        assert(cs[i] as u8 == e[i]);
    }
    assert forall|i: int| 0 <= i < 32 implies #[trigger] hex_decoded(e)[i] == bs[i] by {
        assert(cs[2 * i] as u8 == e[2 * i]);
        assert(cs[2 * i + 1] as u8 == e[2 * i + 1]);
        assert((2 * i) % 2 == 0);
        assert((2 * i + 1) % 2 == 1);
        assert((2 * i) / 2 == i);
        assert((2 * i + 1) / 2 == i);
        assert(16 * (bs[i] / 16) + bs[i] % 16 == bs[i]);
    }
    assert(hex_decoded(e) =~= bs);
}

} // verus!
