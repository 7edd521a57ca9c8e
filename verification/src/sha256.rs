//! 256-bit hashes: SHA-256 (from the `sha256` crate) of a byte string, read as a
//! big-endian integer.

use vstd::prelude::*;
use crate::u256::{U256, be_value, le_bytes, u256_of, lemma_u256_of_view};

verus! {

/// The lowercase hexadecimal SHA-256 digest of `data`, as `sha256::digest` returns it.
pub uninterp spec fn spec_sha256_hex(data: Seq<u8>) -> Seq<char>;

/// Whether `c` is an ASCII hexadecimal digit (either case).
pub open spec fn is_hex_char(c: char) -> bool {
    ('0' <= c && c <= '9') || ('a' <= c && c <= 'f') || ('A' <= c && c <= 'F')
}

/// The value of a hexadecimal digit.
pub open spec fn hex_val(c: char) -> nat {
    if '0' <= c && c <= '9' {
        (c as nat - 48) as nat
    } else if 'a' <= c && c <= 'f' {
        (c as nat - 87) as nat
    } else {
        (c as nat - 55) as nat
    }
}

/// The bytes that pairs of hexadecimal digits spell.
pub open spec fn hex_decoded(s: Seq<char>) -> Seq<u8> {
    Seq::new(s.len() / 2, |i: int| (hex_val(s[2 * i]) * 16 + hex_val(s[2 * i + 1])) as u8)
}

/// The hash of a byte string: its SHA-256 digest as a big-endian number.
pub open spec fn spec_hash_of(data: Seq<u8>) -> nat {
    be_value(hex_decoded(spec_sha256_hex(data)))
}

/// The hash of a byte string, as a `Hash` value.
#[verifier::opaque]
pub open spec fn spec_hash(data: Seq<u8>) -> Hash {
    Hash(u256_of(spec_hash_of(data)))
}

/// `sha256::digest` on a byte slice: 64 lowercase hexadecimal digits
/// (`hex::encode` of the 32-byte SHA-256 output).
#[verifier::external_body]
fn sha256_hex(data: &[u8]) -> (r: String)
    ensures
        r@ == spec_sha256_hex(data@),
        r@.len() == 64,
        forall|i: int|
            0 <= i < 64 ==> ('0' <= #[trigger] r@[i] && r@[i] <= '9') || ('a' <= r@[i] && r@[i]
                <= 'f'),
{
    sha256::digest(data)
}

/// `hex::decode` of an ASCII string: the bytes that its digit pairs spell, or `None`
/// when its length is odd or a character is no hexadecimal digit.
#[verifier::external_body]
fn hex_decode(s: &str) -> (r: Option<Vec<u8>>)
    requires
        forall|i: int| 0 <= i < s@.len() ==> (#[trigger] s@[i] as u32) < 128,
    ensures
        r is Some <==> (s@.len() % 2 == 0 && forall|i: int|
            0 <= i < s@.len() ==> is_hex_char(#[trigger] s@[i])),
        r matches Some(v) ==> v@ == hex_decoded(s@),
{
    hex::decode(s).ok()
}

/// A 256-bit hash.
#[derive(Clone, Copy, Debug)]
pub struct Hash(pub U256);

impl Hash {
    /// The hash of a byte string: SHA-256, hex-encoded, decoded, read big-endian.
    pub fn hash_bytes(data: &[u8]) -> (r: Hash)
        ensures
            r.0@ == spec_hash_of(data@),
            r == spec_hash(data@),
    {
        let hex = sha256_hex(data);
        let decoded = hex_decode(hex.as_str());
        match decoded {
            Some(bytes) => {
                assert(bytes@.len() == 32);
                let h = U256::from_be_bytes(bytes.as_slice());
                proof {
                    lemma_u256_of_view(h);
                    reveal(spec_hash);
                }
                Hash(h)
            },
            None => {
                assert(false);
                Hash(U256::zero())
            },
        }
    }

    /// The all-zero hash.
    pub fn zero() -> (r: Hash)
        ensures
            r.0@ == 0,
    {
        Hash(U256::zero())
    }

    /// The all-zero hash, whatever `self` is.
    pub fn zero_hash(&self) -> (r: Hash)
        ensures
            r.0@ == 0,
    {
        Hash(U256::zero())
    }

    /// Compares the hash with a target and discards the outcome.
    pub fn check_matches(&self, target: U256) {
        let _ = self.0.le(&target);
    }

    /// Whether the hash, as a number, is at most `target`.
    pub fn matches_target(&self, target: U256) -> (r: bool)
        ensures
            r == (self.0@ <= target@),
    {
        self.0.le(&target)
    }

    /// Whether two hashes are equal.
    pub fn equals(&self, other: &Hash) -> (r: bool)
        ensures
            r == (self.0@ == other.0@),
    {
        self.0.eq(&other.0)
    }

    /// The 32 bytes of the hash, least significant first; this is what gets signed.
    pub fn as_bytes(&self) -> (r: Vec<u8>)
        ensures
            r@ == le_bytes(self.0),
    {
        self.0.to_le_bytes()
    }
}

} // verus!
