//! Hashes and hexadecimal text, through the `sha2`, `sha3` and `hex` crates.
use vstd::prelude::*;
use sha2::Digest;

verus! {

/// The SHA-256 digest of a byte string, as `sha2::Sha256` computes it.
pub uninterp spec fn sha256_spec(data: Seq<u8>) -> Seq<u8>;

/// The Keccak-256 digest of a byte string, as `sha3::Keccak256` computes it.
pub uninterp spec fn keccak256_spec(data: Seq<u8>) -> Seq<u8>;

/// The character for a nibble `d < 16` in the given case.
pub open spec fn hex_digit(d: int, upper: bool) -> char {
    if d < 10 {
        crate::text::digit_char(d)
    } else if upper {
        if d == 10 { 'A' } else if d == 11 { 'B' } else if d == 12 { 'C' } else if d == 13 { 'D' }
        else if d == 14 { 'E' } else { 'F' }
    } else {
        if d == 10 { 'a' } else if d == 11 { 'b' } else if d == 12 { 'c' } else if d == 13 { 'd' }
        else if d == 14 { 'e' } else { 'f' }
    }
}

/// Hexadecimal text of a byte string: two digits per byte, high nibble first.
pub open spec fn hex_text(data: Seq<u8>, upper: bool) -> Seq<char>
    decreases data.len(),
{
    if data.len() == 0 {
        Seq::empty()
    } else {
        hex_text(data.drop_last(), upper) + seq![
            hex_digit((data.last() / 16) as int, upper),
            hex_digit((data.last() % 16) as int, upper),
        ]
    }
}

/// `hex::encode`: lowercase hexadecimal text of the bytes. Claimed: the
/// result is `hex_text` of the bytes in lowercase, as the crate's table
/// "0123456789abcdef" gives it.
#[verifier::external_body]
pub(crate) fn hex_encode(data: &[u8]) -> (r: String)
    ensures
        r@ == hex_text(data@, false),
{
    hex::encode(data)
}

/// `hex::encode_upper`: uppercase hexadecimal text of the bytes. Claimed: the
/// result is `hex_text` of the bytes in uppercase ("0123456789ABCDEF").
#[verifier::external_body]
pub(crate) fn hex_encode_upper(data: &[u8]) -> (r: String)
    ensures
        r@ == hex_text(data@, true),
{
    hex::encode_upper(data)
}

/// `sha2::Sha256::digest`. Claimed: the result is `sha256_spec` of the input,
/// and is 32 bytes long.
#[verifier::external_body]
pub(crate) fn sha256(data: &[u8]) -> (r: Vec<u8>)
    ensures
        r@ == sha256_spec(data@),
        r@.len() == 32,
{
    sha2::Sha256::digest(data).to_vec()
}

/// `sha3::Keccak256::digest`. Claimed: the result is `keccak256_spec` of the
/// input, and is 32 bytes long.
#[verifier::external_body]
pub(crate) fn keccak256(data: &[u8]) -> (r: Vec<u8>)
    ensures
        r@ == keccak256_spec(data@),
        r@.len() == 32,
{
    sha3::Keccak256::digest(data).to_vec()
}

/// Lowercase hexadecimal SHA-256 of the bytes.
pub fn sha256_hex(data: &[u8]) -> (r: String)
    ensures
        r@ == hex_text(sha256_spec(data@), false),
{
    let digest = sha256(data);
    hex_encode(digest.as_slice())
}

/// The SHA-256 digest of the bytes.
pub fn sha256_bytes(data: &[u8]) -> (r: Vec<u8>)
    ensures
        r@ == sha256_spec(data@),
        r@.len() == 32,
{
    sha256(data)
}

} // verus!

verus! {

/// A hexadecimal digit of either case.
pub open spec fn is_hex_digit(c: char) -> bool {
    ('0' <= c && c <= '9') || ('a' <= c && c <= 'f') || ('A' <= c && c <= 'F')
}

/// The value of a hexadecimal digit.
pub open spec fn hex_value(c: char) -> int {
    if '0' <= c && c <= '9' {
        c as int - '0' as int
    } else if 'a' <= c && c <= 'f' {
        c as int - 'a' as int + 10
    } else {
        c as int - 'A' as int + 10
    }
}

/// Text made only of hexadecimal digits, of even length.
pub open spec fn is_hex_text(s: Seq<char>) -> bool {
    s.len() % 2 == 0 && forall|i: int| 0 <= i < s.len() ==> is_hex_digit(#[trigger] s[i])
}

/// The bytes that hexadecimal text stands for, two digits per byte.
pub open spec fn hex_bytes(s: Seq<char>) -> Seq<u8> {
    Seq::new(s.len() / 2, |i: int| (hex_value(s[2 * i]) * 16 + hex_value(s[2 * i + 1])) as u8)
}

/// `hex::decode`. Claimed, as the crate's `val` and `from_hex` show: the text
/// decodes exactly where it is made of hexadecimal digits (either case) and has
/// even length, and then to `hex_bytes` of it.
#[verifier::external_body]
pub(crate) fn hex_decode(s: &str) -> (r: Option<Vec<u8>>)
    ensures
        r is Some <==> is_hex_text(s@),
        r matches Some(b) ==> b@ == hex_bytes(s@),
{
    hex::decode(s).ok()
}

} // verus!
