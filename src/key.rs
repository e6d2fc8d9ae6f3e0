use vstd::prelude::*;

use crate::error::BlobError;
use hex::FromHex;

verus! {

/// The address of an entity in the store: 32 bytes.
pub struct EntityKey {
    pub bytes: [u8; 32],
}

pub open spec fn is_hex_digit(c: char) -> bool {
    ('0' <= c && c <= '9') || ('a' <= c && c <= 'f') || ('A' <= c && c <= 'F')
}

pub open spec fn hex_digit_value(c: char) -> int {
    if '0' <= c && c <= '9' {
        c as int - '0' as int
    } else if 'a' <= c && c <= 'f' {
        c as int - 'a' as int + 10
    } else {
        c as int - 'A' as int + 10
    }
}

/// The lowercase hex digit for `d` (below 16).
pub open spec fn lower_hex_digit(d: int) -> char {
    if d < 10 {
        ('0' as int + d) as char
    } else {
        ('a' as int + d - 10) as char
    }
}

/// Text that names 32 bytes: exactly 64 hex digits.
pub open spec fn is_key_hex(s: Seq<char>) -> bool {
    s.len() == 64 && forall|i: int| 0 <= i < s.len() ==> is_hex_digit(#[trigger] s[i])
}

/// The bytes that a run of hex digits names, two digits per byte, high digit first.
pub open spec fn hex_decoded(s: Seq<char>) -> Seq<u8> {
    Seq::new(
        s.len() / 2,
        |i: int| (16 * hex_digit_value(s[2 * i]) + hex_digit_value(s[2 * i + 1])) as u8,
    )
}

/// Two lowercase hex digits per byte, high digit first.
pub open spec fn hex_encoded(b: Seq<u8>) -> Seq<char> {
    Seq::new(
        2 * b.len(),
        |i: int|
            if i % 2 == 0 {
                lower_hex_digit(b[i / 2] as int / 16)
            } else {
                lower_hex_digit(b[i / 2] as int % 16)
            },
    )
}

/// The text after an optional leading `0x`.
pub open spec fn without_hex_prefix(s: Seq<char>) -> Seq<char> {
    if s.len() >= 2 && s[0] == '0' && s[1] == 'x' {
        s.skip(2)
    } else {
        s
    }
}

/// The text form of a key: `0x` and 64 lowercase hex digits.
pub open spec fn key_text_of(b: Seq<u8>) -> Seq<char> {
    seq!['0', 'x'] + hex_encoded(b)
}

/// Relies on hex's `FromHex` for `[u8; 32]`: it succeeds exactly on 64 hex
/// digits of either case and decodes two digits per byte, high digit first.
#[verifier::external_body]
fn decode_key_hex(s: &str) -> (r: Option<[u8; 32]>)
    ensures
        r is Some <==> is_key_hex(s@),
        r matches Some(b) ==> b@ == hex_decoded(s@),
{
    <[u8; 32]>::from_hex(s).ok()
}

/// Relies on `hex::encode`: two lowercase digits per byte, high digit first.
#[verifier::external_body]
fn encode_hex(b: &[u8; 32]) -> (r: String)
    ensures
        r@ == hex_encoded(b@),
{
    hex::encode(b)
}

/// Reads a key from its text form, with or without a leading `0x`.
pub fn parse_key(text: &str) -> (r: Result<EntityKey, BlobError>)
    ensures
        is_key_hex(without_hex_prefix(text@)) ==> (r matches Ok(k) && k.bytes@ == hex_decoded(
            without_hex_prefix(text@),
        )),
        !is_key_hex(without_hex_prefix(text@)) ==> r matches Err(BlobError::MalformedKey),
{
    let n = text.unicode_len();
    let digits = if n >= 2 && text.get_char(0) == '0' && text.get_char(1) == 'x' {
        text.substring_char(2, n)
    } else {
        text
    };
    assert(digits@ == without_hex_prefix(text@));
    match decode_key_hex(digits) {
        Some(bytes) => Ok(EntityKey { bytes }),
        None => Err(BlobError::MalformedKey),
    }
}

impl EntityKey {
    /// The text form of the key, as written into `parent` annotations.
    pub fn to_text(&self) -> (r: String)
        ensures
            r@ == key_text_of(self.bytes@),
    {
        let mut r = String::from_str("0x");
        proof {
            reveal_strlit("0x");
        }
        let digits = encode_hex(&self.bytes);
        r.append(digits.as_str());
        assert(r@ =~= key_text_of(self.bytes@));
        r
    }
}

} // verus!

verus! {

proof fn lemma_hex_digit_round_trip(d: int)
    requires
        0 <= d < 16,
    ensures
        is_hex_digit(lower_hex_digit(d)),
        hex_digit_value(lower_hex_digit(d)) == d,
{
}

/// The text form of a key reads back as the same key.
pub proof fn lemma_key_text_round_trip(key: EntityKey)
    ensures
        is_key_hex(without_hex_prefix(key_text_of(key.bytes@))),
        hex_decoded(without_hex_prefix(key_text_of(key.bytes@))) == key.bytes@,
{
    let b = key.bytes@;
    let t = key_text_of(b);
    let e = hex_encoded(b);
    assert(t.skip(2) =~= e);
    assert forall|i: int| 0 <= i < e.len() implies is_hex_digit(#[trigger] e[i]) by {
        if i % 2 == 0 {
            lemma_hex_digit_round_trip(b[i / 2] as int / 16);
        } else {
            lemma_hex_digit_round_trip(b[i / 2] as int % 16);
        }
    }
    assert forall|i: int| 0 <= i < b.len() implies #[trigger] hex_decoded(e)[i] == b[i] by {
        let x = b[i] as int;
        assert((2 * i) % 2 == 0 && (2 * i) / 2 == i);
        assert((2 * i + 1) % 2 == 1 && (2 * i + 1) / 2 == i);
        lemma_hex_digit_round_trip(x / 16);
        lemma_hex_digit_round_trip(x % 16);
        assert(16 * (x / 16) + x % 16 == x);
    }
    assert(hex_decoded(e) =~= b);
}

} // verus!
