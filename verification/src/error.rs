//! Errors.
use vstd::prelude::*;

verus! {

/// Why parsing data failed.
#[derive(Debug, Clone, Copy, PartialEq, Eq, Structural)]
pub enum ParseError {
    /// The data does not have the expected form.
    InvalidData,
}

/// Why a certificate or a signature was refused.
#[derive(Debug, Clone, Copy, PartialEq, Eq, Structural)]
pub enum TlsError {
    /// A name or a certificate does not fit into the space that it is kept in.
    InsufficientSpace,
    /// The certificate chain does not reach the trust anchor, is not valid at the
    /// time, or was issued for another host.
    InvalidCertificate,
    /// The signature was not made over the message with the certificate's key.
    InvalidSignature,
    /// The signature scheme or signature algorithm is not supported.
    InvalidSignatureScheme,
    /// A message cannot be encoded.
    EncodeError,
    /// A certificate, a public key or a signature cannot be decoded.
    DecodeError,
    /// Data cannot be parsed.
    ParseError(ParseError),
}

} // verus!
