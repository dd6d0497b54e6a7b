//! The signatures on certificates and on handshakes.
use crate::asn1;
use crate::asn1::{NULL, UNIVERSAL};
use crate::certificate;
use crate::certificate::{
    AlgorithmIdentifier, AlgorithmView, CertificateView, DecodedCertificate,
};
use crate::crypto;
use crate::error::{ParseError, TlsError};
use crate::handshake::{
    CertificateEntryRef, CertificateVerifyRef, EntryView, ServerCertificate, SignatureScheme,
};
use vstd::prelude::*;

verus! {

/// The algorithms under which a certificate can be signed.
#[derive(Debug, Clone, Copy, PartialEq, Eq, Structural)]
pub enum CertificateSignature {
    /// ECDSA with P-256 and SHA-256.
    EcdsaSha256,
    /// ECDSA with P-384 and SHA-384.
    EcdsaSha384,
    /// Ed25519.
    Ed25519,
    /// RSASSA-PKCS1-v1_5 with SHA-256.
    RsaPkcs1Sha256,
    /// RSASSA-PKCS1-v1_5 with SHA-384.
    RsaPkcs1Sha384,
    /// RSASSA-PKCS1-v1_5 with SHA-512.
    RsaPkcs1Sha512,
}

/// The object identifier of ECDSA with SHA-256, 1.2.840.10045.4.3.2.
pub open spec fn ecdsa_sha256_oid() -> Seq<u8> {
    seq![42, 134, 72, 206, 61, 4, 3, 2]
}

/// The object identifier of ECDSA with SHA-384, 1.2.840.10045.4.3.3.
pub open spec fn ecdsa_sha384_oid() -> Seq<u8> {
    seq![42, 134, 72, 206, 61, 4, 3, 3]
}

/// The object identifier of Ed25519, 1.3.101.112.
pub open spec fn ed25519_oid() -> Seq<u8> {
    seq![43, 101, 112]
}

/// The object identifier of RSASSA-PKCS1-v1_5 with SHA-256, 1.2.840.113549.1.1.11.
pub open spec fn rsa_pkcs1_sha256_oid() -> Seq<u8> {
    seq![42, 134, 72, 134, 247, 13, 1, 1, 11]
}

/// The object identifier of RSASSA-PKCS1-v1_5 with SHA-384, 1.2.840.113549.1.1.12.
pub open spec fn rsa_pkcs1_sha384_oid() -> Seq<u8> {
    seq![42, 134, 72, 134, 247, 13, 1, 1, 12]
}

/// The object identifier of RSASSA-PKCS1-v1_5 with SHA-512, 1.2.840.113549.1.1.13.
pub open spec fn rsa_pkcs1_sha512_oid() -> Seq<u8> {
    seq![42, 134, 72, 134, 247, 13, 1, 1, 13]
}

impl AlgorithmView {
    /// Whether the algorithm has the given object identifier and no parameters.
    pub open spec fn is_bare(self, oid: Seq<u8>) -> bool {
        self.oid == oid && self.parameters is None
    }

    /// Whether the algorithm has the given object identifier and `NULL` for parameters.
    pub open spec fn is_with_null(self, oid: Seq<u8>) -> bool {
        &&& self.oid == oid
        &&& self.parameters matches Some((header, value)) && header.tagged(UNIVERSAL, false, NULL)
            && value.len() == 0
    }
}

/// The signature algorithm that an algorithm identifier stands for. The parameters
/// count: ECDSA and Ed25519 have none, and RSA has `NULL`.
pub open spec fn certificate_signature(algorithm: AlgorithmView) -> Option<CertificateSignature> {
    if algorithm.is_bare(ecdsa_sha256_oid()) {
        Some(CertificateSignature::EcdsaSha256)
    } else if algorithm.is_bare(ecdsa_sha384_oid()) {
        Some(CertificateSignature::EcdsaSha384)
    } else if algorithm.is_bare(ed25519_oid()) {
        Some(CertificateSignature::Ed25519)
    } else if algorithm.is_with_null(rsa_pkcs1_sha256_oid()) {
        Some(CertificateSignature::RsaPkcs1Sha256)
    } else if algorithm.is_with_null(rsa_pkcs1_sha384_oid()) {
        Some(CertificateSignature::RsaPkcs1Sha384)
    } else if algorithm.is_with_null(rsa_pkcs1_sha512_oid()) {
        Some(CertificateSignature::RsaPkcs1Sha512)
    } else {
        None
    }
}

/// What ECDSA with P-256 says of a signature: nothing where the key or the signature
/// does not decode.
pub open spec fn p256_check(key: Seq<u8>, message: Seq<u8>, signature: Seq<u8>) -> Option<bool> {
    if crypto::p256_key_decodes(key) && crypto::p256_signature_decodes(signature) {
        Some(crypto::p256_verifies(key, message, signature))
    } else {
        None
    }
}

/// What ECDSA with P-384 says of a signature: nothing where the key or the signature
/// does not decode.
pub open spec fn p384_check(key: Seq<u8>, message: Seq<u8>, signature: Seq<u8>) -> Option<bool> {
    if crypto::p384_key_decodes(key) && crypto::p384_signature_decodes(signature) {
        Some(crypto::p384_verifies(key, message, signature))
    } else {
        None
    }
}

/// What Ed25519 says of a signature: nothing where the key or the signature does not
/// decode.
pub open spec fn ed25519_check(key: Seq<u8>, message: Seq<u8>, signature: Seq<u8>) -> Option<bool> {
    if key.len() == 32 && crypto::ed25519_key_decodes(key) && signature.len() == 64 {
        Some(crypto::ed25519_verifies(key, message, signature))
    } else {
        None
    }
}

/// What RSA says of a signature that it finds to be valid or not: nothing where the key
/// does not decode.
pub open spec fn rsa_check(key: Seq<u8>, valid: bool) -> Option<bool> {
    if crypto::rsa_key_decodes(key) {
        Some(valid)
    } else {
        None
    }
}

/// What an algorithm says of a certificate's signature, under an issuer's key: nothing
/// where the key or the signature does not decode.
pub open spec fn certificate_check(
    algorithm: CertificateSignature,
    key: Seq<u8>,
    message: Seq<u8>,
    signature: Seq<u8>,
) -> Option<bool> {
    match algorithm {
        CertificateSignature::EcdsaSha256 => p256_check(key, message, signature),
        CertificateSignature::EcdsaSha384 => p384_check(key, message, signature),
        CertificateSignature::Ed25519 => ed25519_check(key, message, signature),
        CertificateSignature::RsaPkcs1Sha256 => rsa_check(
            key,
            crypto::rsa_pkcs1v15_sha256_verifies(key, message, signature),
        ),
        CertificateSignature::RsaPkcs1Sha384 => rsa_check(
            key,
            crypto::rsa_pkcs1v15_sha384_verifies(key, message, signature),
        ),
        CertificateSignature::RsaPkcs1Sha512 => rsa_check(
            key,
            crypto::rsa_pkcs1v15_sha512_verifies(key, message, signature),
        ),
    }
}

/// What has to be verified of a certificate: the algorithm, the signed octets and the
/// signature; or what is wrong with the certificate. `der` is its encoding.
pub open spec fn signature_parts(subject: CertificateView, der: Seq<u8>) -> Result<
    (CertificateSignature, Seq<u8>, Seq<u8>),
    TlsError,
> {
    match subject.signature.as_bytes() {
        None => Err(TlsError::ParseError(ParseError::InvalidData)),
        Some(signature) => match asn1::signed_part(der) {
            None => Err(TlsError::DecodeError),
            Some(message) => match certificate_signature(subject.signature_algorithm) {
                None => Err(TlsError::InvalidSignatureScheme),
                Some(algorithm) => Ok((algorithm, message, signature)),
            },
        },
    }
}

/// Whether an issuer's key produced the signature of a certificate with the encoding
/// `der`. A key or a signature that does not decode did not; an error comes from the
/// certificate alone.
pub open spec fn signed_by(
    issuer_public_key: Seq<u8>,
    subject: CertificateView,
    der: Seq<u8>,
) -> Result<bool, TlsError> {
    match signature_parts(subject, der) {
        Err(e) => Err(e),
        Ok((algorithm, message, signature)) => Ok(
            certificate_check(algorithm, issuer_public_key, message, signature) == Some(true),
        ),
    }
}

/// The signature algorithm of an algorithm identifier.
pub fn classify(algorithm: &AlgorithmIdentifier) -> (classified: Option<CertificateSignature>)
    ensures
        classified == certificate_signature(algorithm@),
{
    let oid: &[u8] = algorithm.oid;
    match algorithm.parameters {
        None => if asn1::same_octets(oid, &[42, 134, 72, 206, 61, 4, 3, 2]) {
            Some(CertificateSignature::EcdsaSha256)
        } else if asn1::same_octets(oid, &[42, 134, 72, 206, 61, 4, 3, 3]) {
            Some(CertificateSignature::EcdsaSha384)
        } else if asn1::same_octets(oid, &[43, 101, 112]) {
            Some(CertificateSignature::Ed25519)
        } else {
            None
        },
        Some((header, value)) => if !header.has_tag(UNIVERSAL, false, NULL) || value.len() != 0 {
            None
        } else if asn1::same_octets(oid, &[42, 134, 72, 134, 247, 13, 1, 1, 11]) {
            Some(CertificateSignature::RsaPkcs1Sha256)
        } else if asn1::same_octets(oid, &[42, 134, 72, 134, 247, 13, 1, 1, 12]) {
            Some(CertificateSignature::RsaPkcs1Sha384)
        } else if asn1::same_octets(oid, &[42, 134, 72, 134, 247, 13, 1, 1, 13]) {
            Some(CertificateSignature::RsaPkcs1Sha512)
        } else {
            None
        },
    }
}

/// What has to be verified of `subject`, whose encoding is `subject_der`.
pub fn parts_to_verify<'a>(subject: &DecodedCertificate<'a>, subject_der: &'a [u8]) -> (parts:
    Result<(CertificateSignature, &'a [u8], &'a [u8]), TlsError>)
    ensures
        (match parts {
            Ok((algorithm, message, signature)) => signature_parts(subject@, subject_der@) == Ok::<
                (CertificateSignature, Seq<u8>, Seq<u8>),
                TlsError,
            >((algorithm, message@, signature@)),
            Err(e) => signature_parts(subject@, subject_der@) == Err::<
                (CertificateSignature, Seq<u8>, Seq<u8>),
                TlsError,
            >(e),
        }),
{
    let signature_data: &'a [u8] = match subject.signature.as_bytes() {
        Some(bytes) => bytes,
        None => {
            return Err(TlsError::ParseError(ParseError::InvalidData));
        },
    };
    let certificate_data: &'a [u8] = match asn1::get_certificate_tlv_bytes(subject_der) {
        Ok(bytes) => bytes,
        Err(_) => {
            return Err(TlsError::DecodeError);
        },
    };
    match classify(&subject.signature_algorithm) {
        Some(algorithm) => Ok((algorithm, certificate_data, signature_data)),
        None => Err(TlsError::InvalidSignatureScheme),
    }
}

/// Whether a check of a certificate's signature found it valid. Where the issuer's key
/// or the signature did not decode, there is nothing to find.
pub fn found_valid(checked: Option<bool>) -> (valid: bool)
    ensures
        valid == (checked == Some(true)),
{
    match checked {
        Some(valid) => valid,
        None => false,
    }
}

/// Checks whether `issuer_public_key` produced `subject`'s signature. A `false` result
/// means that this issuer is not the right one. An error is a problem with `subject`
/// itself, which no choice of an issuer could fix.
pub fn verify_signature_only(
    issuer_public_key: &[u8],
    subject: &DecodedCertificate,
    subject_der: &[u8],
) -> (verified: Result<bool, TlsError>)
    ensures
        verified == signed_by(issuer_public_key@, subject@, subject_der@),
{
    let (algorithm, data, signature) = match parts_to_verify(subject, subject_der) {
        Ok(parts) => parts,
        Err(e) => {
            return Err(e);
        },
    };
    let checked: Option<bool> = match algorithm {
        CertificateSignature::EcdsaSha256 => crypto::p256_verify(
            issuer_public_key,
            data,
            signature,
        ),
        CertificateSignature::EcdsaSha384 => crypto::p384_verify(
            issuer_public_key,
            data,
            signature,
        ),
        CertificateSignature::Ed25519 => crypto::ed25519_verify(
            issuer_public_key,
            data,
            signature,
        ),
        CertificateSignature::RsaPkcs1Sha256 => crypto::rsa_pkcs1v15_sha256_verify(
            issuer_public_key,
            data,
            signature,
        ),
        CertificateSignature::RsaPkcs1Sha384 => crypto::rsa_pkcs1v15_sha384_verify(
            issuer_public_key,
            data,
            signature,
        ),
        CertificateSignature::RsaPkcs1Sha512 => crypto::rsa_pkcs1v15_sha512_verify(
            issuer_public_key,
            data,
            signature,
        ),
    };
    Ok(found_valid(checked))
}

/// Whether handshake signatures of a scheme can be verified.
pub open spec fn is_supported(scheme: SignatureScheme) -> bool {
    match scheme {
        SignatureScheme::EcdsaSecp256r1Sha256 => true,
        SignatureScheme::EcdsaSecp384r1Sha384 => true,
        SignatureScheme::Ed25519 => true,
        SignatureScheme::RsaPssRsaeSha256 => true,
        SignatureScheme::RsaPssRsaeSha384 => true,
        SignatureScheme::RsaPssRsaeSha512 => true,
        _ => false,
    }
}

/// What a scheme says of a handshake signature: nothing where the scheme is not
/// supported, or the key or the signature does not decode.
pub open spec fn scheme_check(
    scheme: SignatureScheme,
    key: Seq<u8>,
    message: Seq<u8>,
    signature: Seq<u8>,
) -> Option<bool> {
    match scheme {
        SignatureScheme::EcdsaSecp256r1Sha256 => p256_check(key, message, signature),
        SignatureScheme::EcdsaSecp384r1Sha384 => p384_check(key, message, signature),
        SignatureScheme::Ed25519 => ed25519_check(key, message, signature),
        SignatureScheme::RsaPssRsaeSha256 => rsa_check(
            key,
            crypto::rsa_pss_sha256_verifies(key, message, signature),
        ),
        SignatureScheme::RsaPssRsaeSha384 => rsa_check(
            key,
            crypto::rsa_pss_sha384_verifies(key, message, signature),
        ),
        SignatureScheme::RsaPssRsaeSha512 => rsa_check(
            key,
            crypto::rsa_pss_sha512_verifies(key, message, signature),
        ),
        _ => None,
    }
}

/// What a check of a handshake signature comes to, under the given scheme.
pub open spec fn outcome(scheme: SignatureScheme, checked: Option<bool>) -> Result<(), TlsError> {
    if !is_supported(scheme) {
        Err(TlsError::InvalidSignatureScheme)
    } else {
        match checked {
            None => Err(TlsError::DecodeError),
            Some(false) => Err(TlsError::InvalidSignature),
            Some(true) => Ok(()),
        }
    }
}

/// The public key of the certificate that a certificate message starts with; nothing
/// where it starts with none, or the certificate or the key does not decode.
pub open spec fn leaf_key(entries: Seq<EntryView>) -> Option<Seq<u8>> {
    if entries.len() == 0 {
        None
    } else {
        match entries[0] {
            EntryView::X509(der) => match certificate::certificate(der) {
                Some(decoded) => decoded.public_key(),
                None => None,
            },
            EntryView::RawPublicKey(_) => None,
        }
    }
}

/// What the verification of a handshake signature comes to.
pub open spec fn handshake_check(
    message: Seq<u8>,
    entries: Seq<EntryView>,
    scheme: SignatureScheme,
    signature: Seq<u8>,
) -> Result<(), TlsError> {
    match leaf_key(entries) {
        None => Err(TlsError::DecodeError),
        Some(key) => outcome(scheme, scheme_check(scheme, key, message, signature)),
    }
}

/// Whether a scheme can be tried with a key. Ed25519 takes no key of another length than
/// its own, and RSASSA-PSS with SHA-256 takes no key that does not decode.
pub open spec fn can_try(scheme: SignatureScheme, key: Seq<u8>) -> bool {
    match scheme {
        SignatureScheme::Ed25519 => key.len() == 32,
        SignatureScheme::RsaPssRsaeSha256 => crypto::rsa_key_decodes(key),
        _ => true,
    }
}

/// Whether a scheme can be tried with the key of a certificate message, if it has one.
pub open spec fn can_verify(entries: Seq<EntryView>, scheme: SignatureScheme) -> bool {
    leaf_key(entries) matches Some(key) ==> can_try(scheme, key)
}

/// What a check of a handshake signature comes to, under the given scheme.
pub fn conclude(scheme: SignatureScheme, checked: Option<bool>) -> (concluded: Result<(), TlsError>)
    ensures
        concluded == outcome(scheme, checked),
{
    match scheme {
        SignatureScheme::EcdsaSecp256r1Sha256
        | SignatureScheme::EcdsaSecp384r1Sha384
        | SignatureScheme::Ed25519
        | SignatureScheme::RsaPssRsaeSha256
        | SignatureScheme::RsaPssRsaeSha384
        | SignatureScheme::RsaPssRsaeSha512 => match checked {
            None => Err(TlsError::DecodeError),
            Some(verified) => if verified {
                Ok(())
            } else {
                Err(TlsError::InvalidSignature)
            },
        },
        _ => Err(TlsError::InvalidSignatureScheme),
    }
}

/// The public key of the certificate that a certificate message starts with.
fn first_public_key<'a>(certificate: &ServerCertificate<'a>) -> (key: Option<&'a [u8]>)
    ensures
        key is Some <==> leaf_key(certificate@) is Some,
        key matches Some(k) ==> leaf_key(certificate@) == Some(k@),
{
    if certificate.entries.len() == 0 {
        return None;
    }
    match certificate.entries[0] {
        CertificateEntryRef::X509(der) => match DecodedCertificate::from_der(der) {
            Ok(
                decoded,
            ) => decoded.tbs_certificate.subject_public_key_info.public_key.as_bytes(),
            Err(_) => None,
        },
        CertificateEntryRef::RawPublicKey(_) => None,
    }
}

/// Checks a handshake signature on `message` under the key of the certificate that the
/// certificate message starts with.
pub fn verify_signature(
    message: &[u8],
    certificate: &ServerCertificate,
    verify: &CertificateVerifyRef,
) -> (verified: Result<(), TlsError>)
    requires
        can_verify(certificate@, verify.signature_scheme),
    ensures
        verified == handshake_check(
            message@,
            certificate@,
            verify.signature_scheme,
            verify.signature@,
        ),
{
    let public_key: &[u8] = match first_public_key(certificate) {
        Some(key) => key,
        None => {
            return Err(TlsError::DecodeError);
        },
    };
    let signature: &[u8] = verify.signature;
    let checked: Option<bool> = match verify.signature_scheme {
        SignatureScheme::EcdsaSecp256r1Sha256 => crypto::p256_verify(
            public_key,
            message,
            signature,
        ),
        SignatureScheme::EcdsaSecp384r1Sha384 => crypto::p384_verify(
            public_key,
            message,
            signature,
        ),
        SignatureScheme::Ed25519 => crypto::ed25519_verify(public_key, message, signature),
        SignatureScheme::RsaPssRsaeSha256 => crypto::rsa_pss_sha256_verify(
            public_key,
            message,
            signature,
        ),
        SignatureScheme::RsaPssRsaeSha384 => crypto::rsa_pss_sha384_verify(
            public_key,
            message,
            signature,
        ),
        SignatureScheme::RsaPssRsaeSha512 => crypto::rsa_pss_sha512_verify(
            public_key,
            message,
            signature,
        ),
        _ => None,
    };
    conclude(verify.signature_scheme, checked)
}

/// Whether a scheme can be tried with the key of a certificate message, if it has one.
pub fn can_be_verified(certificate: &ServerCertificate, scheme: SignatureScheme) -> (can: bool)
    ensures
        can == can_verify(certificate@, scheme),
{
    match first_public_key(certificate) {
        Some(key) => match scheme {
            SignatureScheme::Ed25519 => key.len() == 32,
            SignatureScheme::RsaPssRsaeSha256 => crypto::rsa_decodes_key(key),
            _ => true,
        },
        None => true,
    }
}

/// Checks a handshake signature where its scheme can be tried with the key, and gives
/// nothing where it cannot.
pub fn try_verify_signature(
    message: &[u8],
    certificate: &ServerCertificate,
    verify: &CertificateVerifyRef,
) -> (verified: Option<Result<(), TlsError>>)
    ensures
        verified == (if can_verify(certificate@, verify.signature_scheme) {
            Some(
                handshake_check(
                    message@,
                    certificate@,
                    verify.signature_scheme,
                    verify.signature@,
                ),
            )
        } else {
            None
        }),
{
    if !can_be_verified(certificate, verify.signature_scheme) {
        return None;
    }
    Some(verify_signature(message, certificate, verify))
}

/// Whether the check of a certificate's signature fails, and how, is the same under
/// every issuer's key.
pub proof fn law_errors_come_from_the_subject(
    key: Seq<u8>,
    other: Seq<u8>,
    subject: CertificateView,
    der: Seq<u8>,
)
    ensures
        signed_by(key, subject, der) is Err <==> signed_by(other, subject, der) is Err,
        signed_by(key, subject, der) matches Err(e) ==> signed_by(other, subject, der) == Err::<
            bool,
            TlsError,
        >(e),
{
}

/// A certificate counts as signed by a key only where its algorithm is one of the known
/// ones, and finds the signature on the signed part valid under that key.
pub proof fn law_signed_means_valid(key: Seq<u8>, subject: CertificateView, der: Seq<u8>)
    requires
        signed_by(key, subject, der) == Ok::<bool, TlsError>(true),
    ensures
        certificate_signature(subject.signature_algorithm) is Some,
        asn1::signed_part(der) is Some,
        subject.signature.as_bytes() is Some,
        certificate_check(
            certificate_signature(subject.signature_algorithm)->0,
            key,
            asn1::signed_part(der)->0,
            subject.signature.as_bytes()->0,
        ) == Some(true),
{
}

/// A handshake signature is accepted exactly where the scheme is supported and finds
/// the signature on the message valid under the key of the first certificate.
pub proof fn law_accepted_means_valid(
    message: Seq<u8>,
    entries: Seq<EntryView>,
    scheme: SignatureScheme,
    signature: Seq<u8>,
)
    ensures
        handshake_check(message, entries, scheme, signature) is Ok <==> {
            &&& is_supported(scheme)
            &&& leaf_key(entries) matches Some(key) && scheme_check(scheme, key, message, signature)
                == Some(true)
        },
{
}

/// Only the first entry of a certificate message counts for a handshake signature.
pub proof fn law_only_the_first_entry_signs(
    message: Seq<u8>,
    entries: Seq<EntryView>,
    more: Seq<EntryView>,
    scheme: SignatureScheme,
    signature: Seq<u8>,
)
    requires
        entries.len() > 0,
    ensures
        handshake_check(message, entries + more, scheme, signature) == handshake_check(
            message,
            entries,
            scheme,
            signature,
        ),
{
}

/// Under each known algorithm, a certificate counts as signed by a key exactly where the key
/// and the signature decode and the algorithm finds the signature on the signed part valid.
/// Under any other algorithm the check fails. `message` is the signed part.
pub proof fn law_each_algorithm_decides(
    key: Seq<u8>,
    subject: CertificateView,
    der: Seq<u8>,
    message: Seq<u8>,
)
    requires
        subject.signature.unused_bits == 0,
        asn1::signed_part(der) == Some(message),
    ensures
        ({
            let oid = subject.signature_algorithm.oid;
            let signature = subject.signature.raw_bytes;
            let signed = signed_by(key, subject, der);
            let bare = subject.signature_algorithm.parameters is None;
            let null = subject.signature_algorithm.parameters matches Some((header, value))
                && header.class == 0 && !header.constructed && header.number == 5 && value.len()
                == 0;
            let rsa = crypto::rsa_key_decodes(key);
            if bare && oid == seq![42u8, 134, 72, 206, 61, 4, 3, 2] {
                signed == Ok::<bool, TlsError>(
                    crypto::p256_key_decodes(key) && crypto::p256_signature_decodes(signature)
                        && crypto::p256_verifies(key, message, signature),
                )
            } else if bare && oid == seq![42u8, 134, 72, 206, 61, 4, 3, 3] {
                signed == Ok::<bool, TlsError>(
                    crypto::p384_key_decodes(key) && crypto::p384_signature_decodes(signature)
                        && crypto::p384_verifies(key, message, signature),
                )
            } else if bare && oid == seq![43u8, 101, 112] {
                signed == Ok::<bool, TlsError>(
                    key.len() == 32 && signature.len() == 64 && crypto::ed25519_key_decodes(key)
                        && crypto::ed25519_verifies(key, message, signature),
                )
            } else if null && oid == seq![42u8, 134, 72, 134, 247, 13, 1, 1, 11] {
                signed == Ok::<bool, TlsError>(
                    rsa && crypto::rsa_pkcs1v15_sha256_verifies(key, message, signature),
                )
            } else if null && oid == seq![42u8, 134, 72, 134, 247, 13, 1, 1, 12] {
                signed == Ok::<bool, TlsError>(
                    rsa && crypto::rsa_pkcs1v15_sha384_verifies(key, message, signature),
                )
            } else if null && oid == seq![42u8, 134, 72, 134, 247, 13, 1, 1, 13] {
                signed == Ok::<bool, TlsError>(
                    rsa && crypto::rsa_pkcs1v15_sha512_verifies(key, message, signature),
                )
            } else {
                signed == Err::<bool, TlsError>(TlsError::InvalidSignatureScheme)
            }
        }),
{
    let oid = subject.signature_algorithm.oid;
    assert(ecdsa_sha256_oid() =~= seq![42u8, 134, 72, 206, 61, 4, 3, 2]);
    assert(ecdsa_sha384_oid() =~= seq![42u8, 134, 72, 206, 61, 4, 3, 3]);
    assert(ecdsa_sha256_oid()[7] != ecdsa_sha384_oid()[7]);
    assert(ed25519_oid() =~= seq![43u8, 101, 112]);
    assert(ed25519_oid().len() == 3);
    assert(rsa_pkcs1_sha256_oid() =~= seq![42u8, 134, 72, 134, 247, 13, 1, 1, 11]);
    assert(rsa_pkcs1_sha384_oid() =~= seq![42u8, 134, 72, 134, 247, 13, 1, 1, 12]);
    assert(rsa_pkcs1_sha512_oid() =~= seq![42u8, 134, 72, 134, 247, 13, 1, 1, 13]);
    assert(rsa_pkcs1_sha256_oid()[8] != rsa_pkcs1_sha384_oid()[8]);
    assert(rsa_pkcs1_sha256_oid()[8] != rsa_pkcs1_sha512_oid()[8]);
    assert(rsa_pkcs1_sha384_oid()[8] != rsa_pkcs1_sha512_oid()[8]);
}

/// A certificate whose signature has unused bits, or whose encoding has no signed part, is
/// not checked under any key.
pub proof fn law_what_cannot_be_checked_is_an_error(
    key: Seq<u8>,
    subject: CertificateView,
    der: Seq<u8>,
)
    ensures
        subject.signature.unused_bits != 0 ==> signed_by(key, subject, der) == Err::<
            bool,
            TlsError,
        >(TlsError::ParseError(ParseError::InvalidData)),
        subject.signature.unused_bits == 0 && asn1::signed_part(der) is None ==> signed_by(
            key,
            subject,
            der,
        ) == Err::<bool, TlsError>(TlsError::DecodeError),
{
}

/// Under the key of the first certificate, each supported scheme decides over a handshake
/// signature: it is good exactly where the key and the signature decode and the scheme finds
/// it valid on the message. Under any other scheme it is refused.
pub proof fn law_each_scheme_decides(
    message: Seq<u8>,
    entries: Seq<EntryView>,
    der: Seq<u8>,
    leaf: CertificateView,
    scheme: SignatureScheme,
    signature: Seq<u8>,
)
    requires
        entries.len() > 0,
        entries[0] == EntryView::X509(der),
        certificate::certificate(der) == Some(leaf),
        leaf.tbs_certificate.subject_public_key_info.public_key.unused_bits == 0,
    ensures
        ({
            let key = leaf.tbs_certificate.subject_public_key_info.public_key.raw_bytes;
            let rsa = crypto::rsa_key_decodes(key);
            let (decodes, valid) = match scheme {
                SignatureScheme::EcdsaSecp256r1Sha256 => (
                    crypto::p256_key_decodes(key) && crypto::p256_signature_decodes(signature),
                    crypto::p256_verifies(key, message, signature),
                ),
                SignatureScheme::EcdsaSecp384r1Sha384 => (
                    crypto::p384_key_decodes(key) && crypto::p384_signature_decodes(signature),
                    crypto::p384_verifies(key, message, signature),
                ),
                SignatureScheme::Ed25519 => (
                    key.len() == 32 && signature.len() == 64 && crypto::ed25519_key_decodes(key),
                    crypto::ed25519_verifies(key, message, signature),
                ),
                SignatureScheme::RsaPssRsaeSha256 => (
                    rsa,
                    crypto::rsa_pss_sha256_verifies(key, message, signature),
                ),
                SignatureScheme::RsaPssRsaeSha384 => (
                    rsa,
                    crypto::rsa_pss_sha384_verifies(key, message, signature),
                ),
                SignatureScheme::RsaPssRsaeSha512 => (
                    rsa,
                    crypto::rsa_pss_sha512_verifies(key, message, signature),
                ),
                _ => (false, false),
            };
            let known = scheme is EcdsaSecp256r1Sha256 || scheme is EcdsaSecp384r1Sha384
                || scheme is Ed25519 || scheme is RsaPssRsaeSha256 || scheme is RsaPssRsaeSha384
                || scheme is RsaPssRsaeSha512;
            handshake_check(message, entries, scheme, signature) == (if !known {
                Err::<(), TlsError>(TlsError::InvalidSignatureScheme)
            } else if !decodes {
                Err::<(), TlsError>(TlsError::DecodeError)
            } else if !valid {
                Err::<(), TlsError>(TlsError::InvalidSignature)
            } else {
                Ok::<(), TlsError>(())
            })
        }),
        can_verify(entries, scheme) <==> {
            let key = leaf.tbs_certificate.subject_public_key_info.public_key.raw_bytes;
            &&& scheme is Ed25519 ==> key.len() == 32
            &&& scheme is RsaPssRsaeSha256 ==> crypto::rsa_key_decodes(key)
        },
{
}

/// Without a first certificate that decodes and whose key has whole octets, every handshake
/// signature is refused.
pub proof fn law_without_a_key_nothing_verifies(
    message: Seq<u8>,
    entries: Seq<EntryView>,
    scheme: SignatureScheme,
    signature: Seq<u8>,
)
    requires
        entries.len() > 0 ==> (entries[0] matches EntryView::X509(der) ==> (
        certificate::certificate(der) matches Some(leaf)
            ==> leaf.tbs_certificate.subject_public_key_info.public_key.unused_bits != 0)),
    ensures
        handshake_check(message, entries, scheme, signature) == Err::<(), TlsError>(
            TlsError::DecodeError,
        ),
        can_verify(entries, scheme),
{
}

} // verus!
