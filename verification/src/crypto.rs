//! Verifying signatures with the cryptography crates.
//!
//! Each function takes a public key, a message and a signature as octets, decodes the
//! key and the signature, and verifies the signature. It returns nothing where the key
//! or the signature does not decode, and whether the signature is valid otherwise.
//! What decodes, and what is valid, is named here and not defined.
use vstd::prelude::*;

verus! {

/// Whether octets are a point of the curve P-256 in SEC1 encoding.
pub uninterp spec fn p256_key_decodes(key: Seq<u8>) -> bool;

/// Whether octets are a DER-encoded ECDSA signature of the size of P-256.
pub uninterp spec fn p256_signature_decodes(signature: Seq<u8>) -> bool;

/// Whether a signature is valid under ECDSA with P-256 and SHA-256.
pub uninterp spec fn p256_verifies(key: Seq<u8>, message: Seq<u8>, signature: Seq<u8>) -> bool;

/// Whether octets are a point of the curve P-384 in SEC1 encoding.
pub uninterp spec fn p384_key_decodes(key: Seq<u8>) -> bool;

/// Whether octets are a DER-encoded ECDSA signature of the size of P-384.
pub uninterp spec fn p384_signature_decodes(signature: Seq<u8>) -> bool;

/// Whether a signature is valid under ECDSA with P-384 and SHA-384.
pub uninterp spec fn p384_verifies(key: Seq<u8>, message: Seq<u8>, signature: Seq<u8>) -> bool;

/// Whether 32 octets are a compressed point of the Edwards curve of Ed25519.
pub uninterp spec fn ed25519_key_decodes(key: Seq<u8>) -> bool;

/// Whether a signature is valid under Ed25519.
pub uninterp spec fn ed25519_verifies(key: Seq<u8>, message: Seq<u8>, signature: Seq<u8>) -> bool;

/// Whether octets are an RSA public key in PKCS#1 encoding, with a modulus and an
/// exponent that the `rsa` crate accepts.
pub uninterp spec fn rsa_key_decodes(key: Seq<u8>) -> bool;

/// Whether a signature is valid under RSASSA-PKCS1-v1_5 with SHA-256.
pub uninterp spec fn rsa_pkcs1v15_sha256_verifies(
    key: Seq<u8>,
    message: Seq<u8>,
    signature: Seq<u8>,
) -> bool;

/// Whether a signature is valid under RSASSA-PKCS1-v1_5 with SHA-384.
pub uninterp spec fn rsa_pkcs1v15_sha384_verifies(
    key: Seq<u8>,
    message: Seq<u8>,
    signature: Seq<u8>,
) -> bool;

/// Whether a signature is valid under RSASSA-PKCS1-v1_5 with SHA-512.
pub uninterp spec fn rsa_pkcs1v15_sha512_verifies(
    key: Seq<u8>,
    message: Seq<u8>,
    signature: Seq<u8>,
) -> bool;

/// Whether a signature is valid under RSASSA-PSS with SHA-256 and a salt of the
/// length of the hash.
pub uninterp spec fn rsa_pss_sha256_verifies(
    key: Seq<u8>,
    message: Seq<u8>,
    signature: Seq<u8>,
) -> bool;

/// Whether a signature is valid under RSASSA-PSS with SHA-384 and a salt of the
/// length of the hash.
pub uninterp spec fn rsa_pss_sha384_verifies(
    key: Seq<u8>,
    message: Seq<u8>,
    signature: Seq<u8>,
) -> bool;

/// Whether a signature is valid under RSASSA-PSS with SHA-512 and a salt of the
/// length of the hash.
pub uninterp spec fn rsa_pss_sha512_verifies(
    key: Seq<u8>,
    message: Seq<u8>,
    signature: Seq<u8>,
) -> bool;

/// `p256::ecdsa`: `VerifyingKey::from_sec1_bytes` on the key, `Signature::from_der` on
/// the signature, and `Verifier::verify`. The result is nothing where the key or the
/// signature does not decode, and otherwise whether the signature is valid; each of
/// the three depends on the octets that it is given alone.
#[verifier::external_body]
pub(crate) fn p256_verify(key: &[u8], message: &[u8], signature: &[u8]) -> (verified: Option<bool>)
    ensures
        verified == (if p256_key_decodes(key@) && p256_signature_decodes(signature@) {
            Some(p256_verifies(key@, message@, signature@))
        } else {
            None
        }),
{
    let key = p256::ecdsa::VerifyingKey::from_sec1_bytes(key).ok()?;
    let signature = p256::ecdsa::Signature::from_der(signature).ok()?;
    Some(p256::ecdsa::signature::Verifier::verify(&key, message, &signature).is_ok())
}

/// `p384::ecdsa`: `VerifyingKey::from_sec1_bytes` on the key, `Signature::from_der` on
/// the signature, and `Verifier::verify`. The result is nothing where the key or the
/// signature does not decode, and otherwise whether the signature is valid; each of
/// the three depends on the octets that it is given alone.
#[verifier::external_body]
pub(crate) fn p384_verify(key: &[u8], message: &[u8], signature: &[u8]) -> (verified: Option<bool>)
    ensures
        verified == (if p384_key_decodes(key@) && p384_signature_decodes(signature@) {
            Some(p384_verifies(key@, message@, signature@))
        } else {
            None
        }),
{
    let key = p384::ecdsa::VerifyingKey::from_sec1_bytes(key).ok()?;
    let signature = p384::ecdsa::Signature::from_der(signature).ok()?;
    Some(p384::ecdsa::signature::Verifier::verify(&key, message, &signature).is_ok())
}

/// `ed25519_dalek`: `VerifyingKey::from_bytes` on a key of 32 octets,
/// `Signature::try_from` on the signature, which takes any 64 octets, and
/// `Verifier::verify`. The result is nothing where the key or the signature does not
/// decode or has another length, and otherwise whether the signature is valid.
#[verifier::external_body]
pub(crate) fn ed25519_verify(key: &[u8], message: &[u8], signature: &[u8]) -> (verified: Option<
    bool,
>)
    ensures
        verified == (if key@.len() == 32 && ed25519_key_decodes(key@) && signature@.len() == 64 {
            Some(ed25519_verifies(key@, message@, signature@))
        } else {
            None
        }),
{
    let key = ed25519_dalek::VerifyingKey::from_bytes(key.try_into().ok()?).ok()?;
    let signature = ed25519_dalek::Signature::try_from(signature).ok()?;
    Some(ed25519_dalek::Verifier::verify(&key, message, &signature).is_ok())
}

/// `rsa::RsaPublicKey::from_pkcs1_der`: whether the key decodes.
#[verifier::external_body]
pub(crate) fn rsa_decodes_key(key: &[u8]) -> (decodes: bool)
    ensures
        decodes == rsa_key_decodes(key@),
{
    <rsa::RsaPublicKey as rsa::pkcs1::DecodeRsaPublicKey>::from_pkcs1_der(key).is_ok()
}

/// `rsa::pkcs1v15` with `sha2::Sha256`: `VerifyingKey::from_pkcs1_der` on the key, which
/// takes the keys that `rsa::RsaPublicKey` takes, `Signature::try_from` on the signature,
/// which takes any octets, and `Verifier::verify`. The result is nothing where the key
/// does not decode, and otherwise whether the signature is valid.
#[verifier::external_body]
pub(crate) fn rsa_pkcs1v15_sha256_verify(key: &[u8], message: &[u8], signature: &[u8]) -> (verified:
    Option<bool>)
    ensures
        verified == (if rsa_key_decodes(key@) {
            Some(rsa_pkcs1v15_sha256_verifies(key@, message@, signature@))
        } else {
            None
        }),
{
    let key: rsa::pkcs1v15::VerifyingKey<sha2::Sha256> =
        rsa::pkcs1::DecodeRsaPublicKey::from_pkcs1_der(key).ok()?;
    let signature = rsa::pkcs1v15::Signature::try_from(signature).ok()?;
    Some(rsa::signature::Verifier::verify(&key, message, &signature).is_ok())
}

/// `rsa::pkcs1v15` with `sha2::Sha384`: `VerifyingKey::from_pkcs1_der` on the key, which
/// takes the keys that `rsa::RsaPublicKey` takes, `Signature::try_from` on the signature,
/// which takes any octets, and `Verifier::verify`. The result is nothing where the key
/// does not decode, and otherwise whether the signature is valid.
#[verifier::external_body]
pub(crate) fn rsa_pkcs1v15_sha384_verify(key: &[u8], message: &[u8], signature: &[u8]) -> (verified:
    Option<bool>)
    ensures
        verified == (if rsa_key_decodes(key@) {
            Some(rsa_pkcs1v15_sha384_verifies(key@, message@, signature@))
        } else {
            None
        }),
{
    let key: rsa::pkcs1v15::VerifyingKey<sha2::Sha384> =
        rsa::pkcs1::DecodeRsaPublicKey::from_pkcs1_der(key).ok()?;
    let signature = rsa::pkcs1v15::Signature::try_from(signature).ok()?;
    Some(rsa::signature::Verifier::verify(&key, message, &signature).is_ok())
}

/// `rsa::pkcs1v15` with `sha2::Sha512`: `VerifyingKey::from_pkcs1_der` on the key, which
/// takes the keys that `rsa::RsaPublicKey` takes, `Signature::try_from` on the signature,
/// which takes any octets, and `Verifier::verify`. The result is nothing where the key
/// does not decode, and otherwise whether the signature is valid.
#[verifier::external_body]
pub(crate) fn rsa_pkcs1v15_sha512_verify(key: &[u8], message: &[u8], signature: &[u8]) -> (verified:
    Option<bool>)
    ensures
        verified == (if rsa_key_decodes(key@) {
            Some(rsa_pkcs1v15_sha512_verifies(key@, message@, signature@))
        } else {
            None
        }),
{
    let key: rsa::pkcs1v15::VerifyingKey<sha2::Sha512> =
        rsa::pkcs1::DecodeRsaPublicKey::from_pkcs1_der(key).ok()?;
    let signature = rsa::pkcs1v15::Signature::try_from(signature).ok()?;
    Some(rsa::signature::Verifier::verify(&key, message, &signature).is_ok())
}

/// `rsa::pss` with `sha2::Sha256`: `rsa::RsaPublicKey::from_pkcs1_der` on the key,
/// `VerifyingKey::from`, `Signature::try_from` on the signature, which takes any octets,
/// and `Verifier::verify`. The result is nothing where the key does not decode, and
/// otherwise whether the signature is valid.
#[verifier::external_body]
pub(crate) fn rsa_pss_sha256_verify(key: &[u8], message: &[u8], signature: &[u8]) -> (verified:
    Option<bool>)
    ensures
        verified == (if rsa_key_decodes(key@) {
            Some(rsa_pss_sha256_verifies(key@, message@, signature@))
        } else {
            None
        }),
{
    let key: rsa::RsaPublicKey = rsa::pkcs1::DecodeRsaPublicKey::from_pkcs1_der(key).ok()?;
    let key = rsa::pss::VerifyingKey::<sha2::Sha256>::from(key);
    let signature = rsa::pss::Signature::try_from(signature).ok()?;
    Some(rsa::signature::Verifier::verify(&key, message, &signature).is_ok())
}

/// `rsa::pss` with `sha2::Sha384`: `rsa::RsaPublicKey::from_pkcs1_der` on the key,
/// `VerifyingKey::from`, `Signature::try_from` on the signature, which takes any octets,
/// and `Verifier::verify`. The result is nothing where the key does not decode, and
/// otherwise whether the signature is valid.
#[verifier::external_body]
pub(crate) fn rsa_pss_sha384_verify(key: &[u8], message: &[u8], signature: &[u8]) -> (verified:
    Option<bool>)
    ensures
        verified == (if rsa_key_decodes(key@) {
            Some(rsa_pss_sha384_verifies(key@, message@, signature@))
        } else {
            None
        }),
{
    let key: rsa::RsaPublicKey = rsa::pkcs1::DecodeRsaPublicKey::from_pkcs1_der(key).ok()?;
    let key = rsa::pss::VerifyingKey::<sha2::Sha384>::from(key);
    let signature = rsa::pss::Signature::try_from(signature).ok()?;
    Some(rsa::signature::Verifier::verify(&key, message, &signature).is_ok())
}

/// `rsa::pss` with `sha2::Sha512`: `rsa::RsaPublicKey::from_pkcs1_der` on the key,
/// `VerifyingKey::from`, `Signature::try_from` on the signature, which takes any octets,
/// and `Verifier::verify`. The result is nothing where the key does not decode, and
/// otherwise whether the signature is valid.
#[verifier::external_body]
pub(crate) fn rsa_pss_sha512_verify(key: &[u8], message: &[u8], signature: &[u8]) -> (verified:
    Option<bool>)
    ensures
        verified == (if rsa_key_decodes(key@) {
            Some(rsa_pss_sha512_verifies(key@, message@, signature@))
        } else {
            None
        }),
{
    let key: rsa::RsaPublicKey = rsa::pkcs1::DecodeRsaPublicKey::from_pkcs1_der(key).ok()?;
    let key = rsa::pss::VerifyingKey::<sha2::Sha512>::from(key);
    let signature = rsa::pss::Signature::try_from(signature).ok()?;
    Some(rsa::signature::Verifier::verify(&key, message, &signature).is_ok())
}

} // verus!
