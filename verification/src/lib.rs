//! Verifying the certificate of a TLS 1.3 server.
//!
//! A client that was given one trust anchor decides here whether a server is the host
//! that it was reached under: whether the server's certificate chains up to the anchor,
//! is valid at the time, carries the host's name, and belongs to the key that signed the
//! handshake. [`server::CertVerifier`] does all of it, in the order of a handshake.
//!
//! - [`server`]: the verifier, and the message under a handshake signature.
//! - [`chain`]: the walk from a server's certificate to the trust anchor.
//! - [`hostname`]: comparing a certificate's names with a host.
//! - [`signature`]: the signatures on certificates and handshakes.
//! - [`certificate`], [`subject`], [`time`], [`asn1`]: reading certificates.
//! - [`handshake`], [`error`], [`bounded`]: the messages, the errors and the
//!   collections that the others share.
//! - [`crypto`]: calls into the cryptography crates.
//!
//! What each function returns is stated over sequences of octets. Which signatures are
//! valid is up to other crates; the module [`crypto`] gives names to it, and everything
//! else is stated in their terms.
pub mod asn1;
pub mod bounded;
pub mod certificate;
pub mod chain;
pub mod crypto;
pub mod error;
pub mod handshake;
pub mod hostname;
pub mod server;
pub mod signature;
pub mod subject;
pub mod time;
