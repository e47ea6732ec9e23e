use vstd::prelude::*;
use sha2::Digest;

verus! {

/// The SHA-256 digest of a byte string.
pub uninterp spec fn sha256_of(data: Seq<u8>) -> Seq<u8>;

/// Whether secp256k1 ECDSA accepts a 64-byte compact signature over a 32-byte
/// digest under a serialized public key.
pub uninterp spec fn ecdsa_accepts(digest: Seq<u8>, sig: Seq<u8>, pubkey: Seq<u8>) -> bool;

/// SHA-256 of `data`.
///
/// Relies on `sha2::Sha256::digest`: a 32-byte digest that depends on the input alone.
#[verifier::external_body]
pub fn sha256(data: &[u8]) -> (r: Vec<u8>)
    ensures
        r@ == sha256_of(data@),
        r@.len() == 32,
{
    sha2::Sha256::digest(data).to_vec()
}

/// Relies on secp256k1's `Secp256k1::verify_ecdsa` (with `Message::from_digest_slice`,
/// `ecdsa::Signature::from_compact` and `PublicKey::from_slice` to parse its arguments):
/// the answer depends on the three byte strings alone, and a digest that is not 32 bytes
/// or a signature that is not 64 bytes is refused before any curve arithmetic.
#[verifier::external_body]
fn ecdsa_verify(digest: &[u8], sig: &[u8], pubkey: &[u8]) -> (r: bool)
    ensures
        r == ecdsa_accepts(digest@, sig@, pubkey@),
        digest@.len() != 32 ==> !r,
        sig@.len() != 64 ==> !r,
{
    let secp = secp256k1::Secp256k1::verification_only();
    let msg = match secp256k1::Message::from_digest_slice(digest) {
        Ok(m) => m,
        Err(_) => return false,
    };
    let sig = match secp256k1::ecdsa::Signature::from_compact(sig) {
        Ok(s) => s,
        Err(_) => return false,
    };
    let pk = match secp256k1::PublicKey::from_slice(pubkey) {
        Ok(p) => p,
        Err(_) => return false,
    };
    secp.verify_ecdsa(&msg, &sig, &pk).is_ok()
}

/// SHA-256 applied twice.
pub open spec fn double_sha256_of(data: Seq<u8>) -> Seq<u8> {
    sha256_of(sha256_of(data))
}

/// The owner id that locks an output: SHA-256 of the serialized public key.
pub open spec fn pubkey_hash_of(pubkey: Seq<u8>) -> Seq<u8> {
    sha256_of(pubkey)
}

/// Whether `sig` signs `msg` under `pubkey`: the signed digest is SHA-256 of `msg`.
pub open spec fn signature_valid(msg: Seq<u8>, sig: Seq<u8>, pubkey: Seq<u8>) -> bool {
    ecdsa_accepts(sha256_of(msg), sig, pubkey)
}

/// SHA-256 of SHA-256 of `data`.
pub fn double_sha256(data: &[u8]) -> (r: Vec<u8>)
    ensures
        r@ == double_sha256_of(data@),
        r@.len() == 32,
{
    let first = sha256(data);
    sha256(first.as_slice())
}

/// The owner id of a serialized public key.
pub fn pubkey_hash(pubkey: &[u8]) -> (r: Vec<u8>)
    ensures
        r@ == pubkey_hash_of(pubkey@),
        r@.len() == 32,
{
    sha256(pubkey)
}

/// Same as `pubkey_hash`, under the name the wallet side uses.
pub fn pubkey_hash_from_bytes(pubkey_bytes: &[u8]) -> (r: Vec<u8>)
    ensures
        r@ == pubkey_hash_of(pubkey_bytes@),
{
    pubkey_hash(pubkey_bytes)
}

/// Checks a compact ECDSA signature over SHA-256 of `msg`; malformed keys or
/// signatures give `false`.
pub fn verify_signature(msg: &[u8], sig: &[u8], pubkey: &[u8]) -> (r: bool)
    ensures
        r == signature_valid(msg@, sig@, pubkey@),
        sig@.len() != 64 ==> !r,
{
    let digest = sha256(msg);
    ecdsa_verify(digest.as_slice(), sig, pubkey)
}

} // verus!
