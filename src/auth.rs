//! Credentials as the library sees them: who logs in, and how a password is
//! stored.
use sha2::{Digest, Sha256};
use vstd::prelude::*;
use vstd::string::StringSliceAdditionalSpecFns;

verus! {

/// A user's name and password as submitted.
pub struct User {
    pub username: String,
    pub password: String,
}

/// The SHA-256 digest of a byte string.
pub uninterp spec fn sha256_of(data: Seq<u8>) -> Seq<u8>;

/// Relies on sha2's `Sha256::digest`: the digest of the bytes, 32 bytes
/// long.
#[verifier::external_body]
fn sha256(data: &[u8]) -> (r: Vec<u8>)
    ensures
        r@ == sha256_of(data@),
        r@.len() == 32,
{
    Sha256::digest(data).to_vec()
}

/// The lowercase hexadecimal digit for `n` below 16.
pub open spec fn hex_digit(n: int) -> char {
    seq!['0', '1', '2', '3', '4', '5', '6', '7', '8', '9', 'a', 'b', 'c', 'd', 'e', 'f'][n]
}

/// Two lowercase hexadecimal digits for each byte, high half first.
pub open spec fn hex_lower(b: Seq<u8>) -> Seq<char>
    decreases b.len(),
{
    if b.len() == 0 {
        Seq::empty()
    } else {
        hex_lower(b.drop_last()) + seq![hex_digit(b.last() as int / 16), hex_digit(b.last() as int % 16)]
    }
}

/// Relies on hex's `encode`: two lowercase digits for each byte, high half
/// first.
#[verifier::external_body]
fn to_hex(data: &[u8]) -> (r: String)
    ensures
        r@ == hex_lower(data@),
{
    hex::encode(data)
}

/// What is stored for `password`: the hexadecimal SHA-256 digest of the
/// password's bytes followed by the salt's.
pub fn passhash(password: &str, salt: &str) -> (r: String)
    ensures
        r@ == hex_lower(sha256_of(password.spec_bytes() + salt.spec_bytes())),
{
    let p = password.as_bytes();
    let s = salt.as_bytes();
    let mut salted: Vec<u8> = Vec::new();
    let mut i: usize = 0;
    while i < p.len()
        invariant
            i <= p@.len(),
            salted@ == p@.subrange(0, i as int),
        decreases p@.len() - i,
    {
        salted.push(p[i]);
        i = i + 1;
        assert(salted@ =~= p@.subrange(0, i as int));
    }
    let mut j: usize = 0;
    while j < s.len()
        invariant
            j <= s@.len(),
            salted@ == p@ + s@.subrange(0, j as int),
        decreases s@.len() - j,
    {
        salted.push(s[j]);
        j = j + 1;
        assert(salted@ =~= p@ + s@.subrange(0, j as int));
    }
    assert(s@.subrange(0, s@.len() as int) =~= s@);
    let digest = sha256(salted.as_slice());
    to_hex(digest.as_slice())
}

} // verus!
