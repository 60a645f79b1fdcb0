//! Curve operations: X25519 key agreement and Ed25519 host keys.

use vstd::prelude::*;
use ed25519_dalek::{Signer, SigningKey, VerifyingKey};
use x25519_dalek::{PublicKey, StaticSecret};

verus! {

/// The X25519 public key of a secret.
pub uninterp spec fn x25519_public_of(secret: Seq<u8>) -> Seq<u8>;

/// `PublicKey::from` of `x25519_dalek`, applied to the `StaticSecret` of 32
/// bytes: the public key depends on the secret alone.
#[verifier::external_body]
pub(crate) fn x25519_public(secret: &[u8; 32]) -> (r: [u8; 32])
    ensures
        r@ == x25519_public_of(secret@),
{
    PublicKey::from(&StaticSecret::from(*secret)).to_bytes()
}

/// The X25519 shared secret of a secret and a peer's public key.
pub uninterp spec fn x25519_shared_of(secret: Seq<u8>, peer: Seq<u8>) -> Seq<u8>;

/// `StaticSecret::diffie_hellman` of `x25519_dalek`: the shared secret
/// depends on the secret and the peer's public key alone.
#[verifier::external_body]
pub(crate) fn x25519_shared(secret: &[u8; 32], peer: &[u8; 32]) -> (r: [u8; 32])
    ensures
        r@ == x25519_shared_of(secret@, peer@),
{
    StaticSecret::from(*secret).diffie_hellman(&PublicKey::from(*peer)).to_bytes()
}

/// The Ed25519 public key of a seed.
pub uninterp spec fn ed25519_public_of(seed: Seq<u8>) -> Seq<u8>;

/// `SigningKey::verifying_key` of `ed25519_dalek`: the public key depends on
/// the seed alone.
#[verifier::external_body]
pub(crate) fn ed25519_public(seed: &[u8; 32]) -> (r: [u8; 32])
    ensures
        r@ == ed25519_public_of(seed@),
{
    SigningKey::from_bytes(seed).verifying_key().to_bytes()
}

/// The Ed25519 signature of a message under a seed.
pub uninterp spec fn ed25519_signature_of(seed: Seq<u8>, message: Seq<u8>) -> Seq<u8>;

/// `SigningKey::sign` of `ed25519_dalek`, which is deterministic: the
/// signature depends on the seed and the message alone.
#[verifier::external_body]
pub(crate) fn ed25519_sign(seed: &[u8; 32], message: &[u8]) -> (r: [u8; 64])
    ensures
        r@ == ed25519_signature_of(seed@, message@),
{
    SigningKey::from_bytes(seed).sign(message).to_bytes()
}

/// 32 bytes are an Ed25519 public key.
pub uninterp spec fn ed25519_key_valid(key: Seq<u8>) -> bool;

/// `VerifyingKey::from_bytes` of `ed25519_dalek` accepts or rejects 32 bytes
/// as a public key: which, depends on the bytes alone.
#[verifier::external_body]
pub(crate) fn ed25519_valid(key: &[u8; 32]) -> (r: bool)
    ensures
        r == ed25519_key_valid(key@),
{
    VerifyingKey::from_bytes(key).is_ok()
}

} // verus!
