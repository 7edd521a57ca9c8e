//! Keys and signatures on secp256k1, held as plain bytes; the curve arithmetic
//! is done by the `k256` and `ecdsa` crates.

use vstd::prelude::*;
use ecdsa::signature::{Signer, Verifier};
use crate::sha256;
use crate::u256::le_bytes;
use k256::Secp256k1;
use k256::pkcs8::EncodePublicKey;

verus! {

/// The uncompressed SEC1 encoding of the public key that belongs to a secret scalar
/// (as computed by `ecdsa::SigningKey::verifying_key`).
pub uninterp spec fn spec_public_key_of(secret: Seq<u8>) -> Seq<u8>;

/// The DER bytes of the deterministic (RFC 6979) ECDSA signature of `msg` under `secret`.
pub uninterp spec fn spec_ecdsa_sign(secret: Seq<u8>, msg: Seq<u8>) -> Seq<u8>;

/// Whether `sig` (DER) is a valid ECDSA signature of `msg` under the SEC1 public key `key`.
pub uninterp spec fn spec_ecdsa_verify(key: Seq<u8>, msg: Seq<u8>, sig: Seq<u8>) -> bool;

/// The CBOR that `ciborium` writes for the `ecdsa::VerifyingKey` with SEC1 encoding `key`.
pub uninterp spec fn spec_cbor_public_key(key: Seq<u8>) -> Seq<u8>;

/// The CBOR that `ciborium` writes for the `ecdsa::der::Signature` with DER bytes `sig`.
pub uninterp spec fn spec_cbor_signature(sig: Seq<u8>) -> Seq<u8>;

/// The 65 zero bytes that `public_key_bytes` gives for bytes that are no valid secret.
pub open spec fn zero_key() -> Seq<u8> {
    Seq::new(65, |i: int| 0u8)
}

/// The public key in SEC1 bytes that PEM text (SPKI, as `VerifyingKey::from_str`, that
/// is `from_public_key_pem`, reads it) holds; `None` where the text is no such key.
pub uninterp spec fn spec_public_key_from_pem(text: Seq<char>) -> Option<Seq<u8>>;

/// The PEM text (SPKI, LF line endings) that `to_public_key_pem` writes for the public
/// key with these SEC1 bytes; `None` where the bytes are no key or it cannot be written.
pub uninterp spec fn spec_public_key_pem(key: Seq<u8>) -> Option<Seq<char>>;

/// `ecdsa::SigningKey::random` over the operating system's generator, as the
/// secret scalar's 32 big-endian bytes. The scalar it draws is never zero and below
/// the group order, so the bytes are a valid secret: their public key (see
/// `public_key_bytes`) is a point, never the zero bytes. Which secret comes out is
/// left open.
#[verifier::external_body]
fn random_secret() -> (r: [u8; 32])
    ensures
        spec_public_key_of(r@) != zero_key(),
{
    let key = ecdsa::SigningKey::<Secp256k1>::random(&mut rand::rngs::OsRng);
    key.to_bytes().into()
}

/// `ecdsa::SigningKey::verifying_key`, from and to plain bytes: the uncompressed SEC1
/// encoding of the public key of `secret`. Bytes that are no valid scalar give 65 zeros.
#[verifier::external_body]
fn public_key_bytes(secret: &[u8; 32]) -> (r: [u8; 65])
    ensures
        r@ == spec_public_key_of(secret@),
{
    match ecdsa::SigningKey::<Secp256k1>::from_slice(secret) {
        Ok(key) => {
            let point = key.verifying_key().to_encoded_point(false);
            point.as_bytes().try_into().unwrap_or([0u8; 65])
        },
        Err(_) => [0u8; 65],
    }
}

/// `ecdsa::signature::Signer::sign` of a `SigningKey` into a DER signature, from and to
/// plain bytes. A secret that is no valid scalar gives an empty signature. For a valid
/// secret (one whose public key is not the zero bytes), the signature verifies under
/// that public key for the same message, as the `k256` crate's documentation shows of
/// `sign` and `VerifyingKey::verify` (the signature comes out low-S, which `k256`
/// verification asks for).
#[verifier::external_body]
fn sign_bytes(secret: &[u8; 32], msg: &[u8]) -> (r: Vec<u8>)
    ensures
        r@ == spec_ecdsa_sign(secret@, msg@),
        spec_public_key_of(secret@) != zero_key() ==> spec_ecdsa_verify(
            spec_public_key_of(secret@),
            msg@,
            r@,
        ),
{
    match ecdsa::SigningKey::<Secp256k1>::from_slice(secret) {
        Ok(key) => {
            let sig: ecdsa::der::Signature<Secp256k1> = key.sign(msg);
            sig.as_bytes().to_vec()
        },
        Err(_) => Vec::new(),
    }
}

/// `ecdsa::signature::Verifier::verify` of a `VerifyingKey` on a DER signature, from
/// plain bytes; a key or signature that does not parse gives `false`.
#[verifier::external_body]
fn verify_bytes(key: &[u8; 65], msg: &[u8], sig: &[u8]) -> (r: bool)
    ensures
        r == spec_ecdsa_verify(key@, msg@, sig@),
{
    match (
        ecdsa::VerifyingKey::<Secp256k1>::from_sec1_bytes(key),
        ecdsa::der::Signature::<Secp256k1>::from_bytes(sig),
    ) {
        (Ok(k), Ok(s)) => k.verify(msg, &s).is_ok(),
        _ => false,
    }
}

/// `str::parse` into an `ecdsa::VerifyingKey` (its `FromStr`, which reads SPKI PEM),
/// to the key's uncompressed SEC1 bytes; `None` where the text holds no key.
#[verifier::external_body]
fn pem_public_key(text: &str) -> (r: Option<[u8; 65]>)
    ensures
        r is None <==> spec_public_key_from_pem(text@) is None,
        r matches Some(b) ==> Some(b@) == spec_public_key_from_pem(text@),
{
    match text.parse::<ecdsa::VerifyingKey<Secp256k1>>() {
        Ok(k) => k.to_encoded_point(false).as_bytes().try_into().ok(),
        Err(_) => None,
    }
}

/// `EncodePublicKey::to_public_key_pem` (default LF line endings) of the
/// `ecdsa::VerifyingKey` with SEC1 encoding `key`; `None` where the bytes are no key
/// or the text cannot be written.
#[verifier::external_body]
fn pem_of_public_key(key: &[u8; 65]) -> (r: Option<String>)
    ensures
        r is None <==> spec_public_key_pem(key@) is None,
        r matches Some(s) ==> Some(s@) == spec_public_key_pem(key@),
{
    match ecdsa::VerifyingKey::<Secp256k1>::from_sec1_bytes(key) {
        Ok(k) => match k.to_public_key_pem(Default::default()) {
            Ok(text) => Some(text),
            Err(_) => None,
        },
        Err(_) => None,
    }
}

/// `ciborium::into_writer` on the `ecdsa::VerifyingKey` with SEC1 encoding `key`;
/// bytes that are no valid key give an empty result.
#[verifier::external_body]
pub(crate) fn cbor_public_key(key: &[u8; 65]) -> (r: Vec<u8>)
    ensures
        r@ == spec_cbor_public_key(key@),
{
    match ecdsa::VerifyingKey::<Secp256k1>::from_sec1_bytes(key) {
        Ok(k) => {
            let mut out = Vec::new();
            match ciborium::into_writer(&k, &mut out) {
                Ok(()) => out,
                Err(_) => Vec::new(),
            }
        },
        Err(_) => Vec::new(),
    }
}

/// `ciborium::into_writer` on the `ecdsa::der::Signature` with DER bytes `sig`;
/// bytes that are no valid signature give an empty result.
#[verifier::external_body]
pub(crate) fn cbor_signature(sig: &[u8]) -> (r: Vec<u8>)
    ensures
        r@ == spec_cbor_signature(sig@),
{
    match ecdsa::der::Signature::<Secp256k1>::from_bytes(sig) {
        Ok(s) => {
            let mut out = Vec::new();
            match ciborium::into_writer(&s, &mut out) {
                Ok(()) => out,
                Err(_) => Vec::new(),
            }
        },
        Err(_) => Vec::new(),
    }
}

/// A public key: the 65-byte uncompressed SEC1 encoding of a secp256k1 point.
/// Keys compare and order as these bytes, as `ecdsa::VerifyingKey` does.
#[derive(Clone, Copy, Debug)]
pub struct PublicKey {
    pub bytes: [u8; 65],
}

/// A secret key: the 32 big-endian bytes of a secp256k1 scalar.
#[derive(Clone, Copy, Debug)]
pub struct PrivateKey {
    pub secret: [u8; 32],
}

/// A DER-encoded ECDSA signature.
#[derive(Clone, Debug)]
pub struct Signature {
    pub der: Vec<u8>,
}

impl PublicKey {
    /// Whether two keys are the same point.
    pub fn equals(&self, other: &PublicKey) -> (r: bool)
        ensures
            r == (self.bytes@ == other.bytes@),
    {
        let mut i: usize = 0;
        while i < 65
            invariant
                i <= 65,
                forall|j: int| 0 <= j < i ==> self.bytes@[j] == other.bytes@[j],
            decreases 65 - i,
        {
            if self.bytes[i] != other.bytes[i] {
                return false;
            }
            i = i + 1;
        }
        assert(self.bytes@ =~= other.bytes@);
        true
    }
}

/// Reads a public key from its PEM text (SPKI); `None` where the text holds no key.
pub fn public_key_from_pem(text: &str) -> (r: Option<PublicKey>)
    ensures
        r is None <==> spec_public_key_from_pem(text@) is None,
        r matches Some(k) ==> Some(k.bytes@) == spec_public_key_from_pem(text@),
{
    match pem_public_key(text) {
        Some(bytes) => Some(PublicKey { bytes }),
        None => None,
    }
}

/// Writes a public key as PEM text (SPKI); `None` where its bytes are no key.
pub fn public_key_to_pem(k: &PublicKey) -> (r: Option<String>)
    ensures
        r is None <==> spec_public_key_pem(k.bytes@) is None,
        r matches Some(s) ==> Some(s@) == spec_public_key_pem(k.bytes@),
{
    pem_of_public_key(&k.bytes)
}

impl PrivateKey {
    /// Whether the secret is a valid scalar: one with a public key.
    pub open spec fn is_valid(self) -> bool {
        spec_public_key_of(self.secret@) != zero_key()
    }

    /// A fresh random secret key; it is always a valid one.
    pub fn new() -> (r: PrivateKey)
        ensures
            r.is_valid(),
    {
        PrivateKey { secret: random_secret() }
    }

    /// The public key of this secret key.
    pub fn public_key(&self) -> (r: PublicKey)
        ensures
            r.bytes@ == spec_public_key_of(self.secret@),
    {
        PublicKey { bytes: public_key_bytes(&self.secret) }
    }
}

impl Signature {
    /// A copy of the signature.
    pub fn copy(&self) -> (r: Signature)
        ensures
            r.der@ == self.der@,
    {
        let mut der: Vec<u8> = Vec::new();
        crate::cbor::push_all(&mut der, self.der.as_slice());
        Signature { der }
    }

    /// Signs the message bytes with a private key. The signature verifies under the
    /// key's own public key for the same message, where the secret is a valid one.
    pub fn sign_message(msg: &[u8], private_key: &PrivateKey) -> (r: Signature)
        ensures
            r.der@ == spec_ecdsa_sign(private_key.secret@, msg@),
            private_key.is_valid() ==> spec_ecdsa_verify(
                spec_public_key_of(private_key.secret@),
                msg@,
                r.der@,
            ),
    {
        Signature { der: sign_bytes(&private_key.secret, msg) }
    }

    /// Signs the bytes of an output's hash (least significant first) with a private key.
    /// The signature verifies (see `verify`) for the same hash under the key's own public
    /// key, where the secret is a valid one.
    pub fn sign_output(output_hash: &sha256::Hash, private_key: &PrivateKey) -> (r: Signature)
        ensures
            r.der@ == spec_ecdsa_sign(private_key.secret@, le_bytes(output_hash.0)),
            private_key.is_valid() ==> spec_ecdsa_verify(
                spec_public_key_of(private_key.secret@),
                le_bytes(output_hash.0),
                r.der@,
            ),
    {
        let msg = output_hash.as_bytes();
        Signature::sign_message(msg.as_slice(), private_key)
    }

    /// Whether this is a signature of the bytes of an output's hash under a public key.
    pub fn verify(&self, output_hash: &sha256::Hash, public_key: &PublicKey) -> (r: bool)
        ensures
            r == spec_ecdsa_verify(public_key.bytes@, le_bytes(output_hash.0), self.der@),
    {
        let msg = output_hash.as_bytes();
        self.verify_message(msg.as_slice(), public_key)
    }

    /// Whether this is a signature of the message bytes under a public key.
    pub fn verify_message(&self, msg: &[u8], public_key: &PublicKey) -> (r: bool)
        ensures
            r == spec_ecdsa_verify(public_key.bytes@, msg@, self.der@),
    {
        verify_bytes(&public_key.bytes, msg, self.der.as_slice())
    }
}

} // verus!
