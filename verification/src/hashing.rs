//! The `cacheID` of a request: the MD5 digest of a text, in lowercase hex.
use vstd::prelude::*;
use md5::Digest;

verus! {

/// The MD5 digest of the UTF-8 encoding of `data`.
pub uninterp spec fn md5_digest(data: Seq<char>) -> Seq<u8>;

/// The lowercase hexadecimal digit of `d`, for `d < 16`.
pub open spec fn hex_digit(d: int) -> char {
    if d < 10 {
        (48 + d) as char
    } else {
        (87 + d) as char
    }
}

/// Two lowercase hexadecimal digits per byte, the high half first.
pub open spec fn lower_hex(bytes: Seq<u8>) -> Seq<char> {
    Seq::new(
        2 * bytes.len(),
        |i: int|
            hex_digit(
                if i % 2 == 0 {
                    bytes[i / 2] / 16
                } else {
                    bytes[i / 2] % 16
                } as int,
            ),
    )
}

/// The MD5 digest of `data` in lowercase hex.
pub open spec fn md5_hex(data: Seq<char>) -> Seq<char> {
    lower_hex(md5_digest(data))
}

/// Calls `md5::Md5::digest` (the `Digest` trait of the `md-5` crate) on the
/// UTF-8 bytes of `data`.  Claimed: the result is the digest named
/// `md5_digest(data)`, and it has 16 bytes (`Md5Core`'s output size is `U16`).
/// What MD5 computes is not restated.
#[verifier::external_body]
fn md5_bytes(data: &str) -> (r: Vec<u8>)
    ensures
        r@ == md5_digest(data@),
        r@.len() == 16,
{
    md5::Md5::digest(data.as_bytes()).to_vec()
}

/// Calls `hex::encode`.  Claimed: each byte becomes two characters of
/// `0123456789abcdef`, the high half first (the crate's `HEX_CHARS_LOWER`
/// table and `byte2hex`).
#[verifier::external_body]
fn hex_encode(bytes: &Vec<u8>) -> (r: String)
    ensures
        r@ == lower_hex(bytes@),
{
    hex::encode(bytes)
}

/// The bytes in lowercase hex.
pub fn hex_string(bytes: &Vec<u8>) -> (r: String)
    ensures
        r@ == lower_hex(bytes@),
        r@.len() == 2 * bytes@.len(),
{
    hex_encode(bytes)
}

/// Computes the md5 hash of a string, in lowercase hex.
pub fn md5(data: &str) -> (r: String)
    ensures
        r@ == md5_hex(data@),
        r@.len() == 32,
{
    let digest = md5_bytes(data);
    hex_string(&digest)
}

} // verus!
