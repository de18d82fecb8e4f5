//! Text and byte-string helpers: hex, UTF-8, suffixes, substrings and
//! decimal numbers, each with its meaning stated over `Seq<char>`.

use std::string::FromUtf8Error;
use vstd::prelude::*;
use vstd::utf8::*;

verus! {

/// A Rust `String::from_utf8` error, carried through unopened.
#[verifier::external_type_specification]
#[verifier::external_body]
pub struct ExFromUtf8Error(FromUtf8Error);

/// A `hex` decoding error, carried through unopened.
#[verifier::external_type_specification]
#[verifier::external_body]
pub struct ExFromHexError(hex::FromHexError);

/// The lowercase hex digit for a value below 16.
pub open spec fn hex_digit(v: int) -> char {
    if v < 10 {
        (48 + v) as char
    } else {
        (87 + v) as char
    }
}

/// Lowercase hex text of a byte string: two digits per byte, high nibble first.
pub open spec fn spec_hex_encode(bytes: Seq<u8>) -> Seq<char> {
    Seq::new(
        2 * bytes.len(),
        |i: int|
            if i % 2 == 0 {
                hex_digit(bytes[i / 2] as int / 16)
            } else {
                hex_digit(bytes[i / 2] as int % 16)
            },
    )
}

/// `c` is one of `0-9`, `a-f`, `A-F`.
pub open spec fn is_hex_char(c: char) -> bool {
    ||| 48 <= c as u32 <= 57
    ||| 97 <= c as u32 <= 102
    ||| 65 <= c as u32 <= 70
}

/// The value of a hex digit of either case.
pub open spec fn hex_value(c: char) -> int {
    if 48 <= c as u32 <= 57 {
        c as u32 - 48
    } else if 97 <= c as u32 <= 102 {
        c as u32 - 87
    } else {
        c as u32 - 55
    }
}

/// Bytes of a hex text of either case, or `None` when it has an odd length
/// or a character that is not a hex digit.
pub open spec fn spec_hex_decode(s: Seq<char>) -> Option<Seq<u8>> {
    if s.len() % 2 == 0 && forall|i: int| 0 <= i < s.len() ==> #[trigger] is_hex_char(s[i]) {
        Some(Seq::new((s.len() / 2) as nat, |i: int| (hex_value(s[2 * i]) * 16 + hex_value(s[2 * i + 1])) as u8))
    } else {
        None
    }
}

/// `suffix` is a suffix of `s`.
pub open spec fn has_suffix(s: Seq<char>, suffix: Seq<char>) -> bool {
    suffix.len() <= s.len() && s.subrange(s.len() - suffix.len(), s.len() as int) == suffix
}

/// `pattern` occurs in `s` at some position.
pub open spec fn has_substring(s: Seq<char>, pattern: Seq<char>) -> bool {
    exists|i: int| 0 <= i <= s.len() - pattern.len() && #[trigger] s.subrange(i, i + pattern.len()) == pattern
}

/// `c` with `A-Z` mapped to `a-z`.
pub open spec fn ascii_lower(c: char) -> char {
    if 65 <= c as u32 <= 90 {
        ((c as u32) + 32) as char
    } else {
        c
    }
}

/// The decimal digits of `n`, without leading zeros.
pub open spec fn spec_decimal(n: nat) -> Seq<char>
    decreases n,
{
    if n < 10 {
        seq![(48 + n) as char]
    } else {
        spec_decimal(n / 10).push((48 + n % 10) as char)
    }
}

/// Calls `hex::encode`, which writes each byte as two lowercase hex
/// digits, high nibble first (`BytesToHexChars` over `HEX_CHARS_LOWER`).
#[verifier::external_body]
pub(crate) fn hex_encode(bytes: &[u8]) -> (s: String)
    ensures
        s@ == spec_hex_encode(bytes@),
{
    hex::encode(bytes)
}

/// Calls `hex::decode` on the UTF-8 bytes of `s`. The crate returns
/// `OddLength` for an odd byte count and `InvalidHexCharacter` for a byte
/// outside `0-9a-fA-F`; a non-ASCII character always gives one of the two.
/// Otherwise each pair of digits becomes one byte.
#[verifier::external_body]
pub(crate) fn hex_decode(s: &str) -> (r: Result<Vec<u8>, hex::FromHexError>)
    ensures
        r is Ok <==> spec_hex_decode(s@) is Some,
        r matches Ok(v) ==> spec_hex_decode(s@) == Some(v@),
{
    hex::decode(s)
}

/// Calls `String::from_utf8`, which succeeds exactly on valid UTF-8 and
/// then holds the decoded characters.
#[verifier::external_body]
pub(crate) fn string_from_utf8(bytes: Vec<u8>) -> (r: Result<String, FromUtf8Error>)
    ensures
        r is Ok <==> valid_utf8(bytes@),
        r matches Ok(s) ==> s@ == decode_utf8(bytes@),
{
    String::from_utf8(bytes)
}

/// Calls `str::strip_suffix`, which returns the part before `suffix` when
/// `s` ends with it.
#[verifier::external_body]
pub(crate) fn str_strip_suffix<'a>(s: &'a str, suffix: &str) -> (r: Option<&'a str>)
    ensures
        r is Some <==> has_suffix(s@, suffix@),
        r matches Some(p) ==> p@ == s@.subrange(0, s@.len() - suffix@.len()),
{
    s.strip_suffix(suffix)
}

/// Calls `str::ends_with` with a string pattern.
#[verifier::external_body]
pub(crate) fn str_ends_with(s: &str, suffix: &str) -> (r: bool)
    ensures
        r == has_suffix(s@, suffix@),
{
    s.ends_with(suffix)
}

/// Calls `str::contains` with a string pattern.
#[verifier::external_body]
pub(crate) fn str_contains(s: &str, pattern: &str) -> (r: bool)
    ensures
        r == has_substring(s@, pattern@),
{
    s.contains(pattern)
}

/// Calls `str::to_ascii_lowercase`, which maps `A-Z` to `a-z` and keeps
/// every other character.
#[verifier::external_body]
pub(crate) fn str_to_ascii_lowercase(s: &str) -> (r: String)
    ensures
        r@ == Seq::new(s@.len(), |i: int| ascii_lower(s@[i])),
{
    s.to_ascii_lowercase()
}

/// Calls `ToString::to_string` on a `usize`, whose `Display` writes the
/// decimal digits without sign or leading zeros.
#[verifier::external_body]
pub(crate) fn usize_to_decimal(n: usize) -> (s: String)
    ensures
        s@ == spec_decimal(n as nat),
{
    n.to_string()
}

/// Hex digits read back as the value they were written for.
pub proof fn lemma_hex_digit_value(v: int)
    requires
        0 <= v < 16,
    ensures
        is_hex_char(hex_digit(v)),
        hex_value(hex_digit(v)) == v,
{
}

/// Decoding the hex text of a byte string gives the byte string back.
pub proof fn lemma_hex_round_trip(bytes: Seq<u8>)
    ensures
        spec_hex_decode(spec_hex_encode(bytes)) == Some(bytes),
{
    let s = spec_hex_encode(bytes);
    assert forall|i: int| 0 <= i < s.len() implies #[trigger] is_hex_char(s[i]) by {
        if i % 2 == 0 {
            lemma_hex_digit_value(bytes[i / 2] as int / 16);
        } else {
            lemma_hex_digit_value(bytes[i / 2] as int % 16);
        }
    }
    let d = spec_hex_decode(s)->0;
    assert forall|i: int| 0 <= i < bytes.len() implies d[i] == bytes[i] by {
        let b = bytes[i];
        assert((2 * i) / 2 == i);
        assert((2 * i + 1) / 2 == i);
        assert((2 * i) % 2 == 0);
        assert((2 * i + 1) % 2 == 1);
        lemma_hex_digit_value(b as int / 16);
        lemma_hex_digit_value(b as int % 16);
        assert((b as int / 16) * 16 + b as int % 16 == b as int);
    }
    assert(d =~= bytes);
}

} // verus!
