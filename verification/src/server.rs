//! Verifying that a server is the one that its certificate names.
use crate::bounded;
use crate::bounded::{HostName, Message, HOSTNAME_MAXLEN};
use crate::chain;
use crate::chain::verify_certificate_chain;
use crate::error::TlsError;
use crate::handshake;
use crate::handshake::{
    Certificate, CertificateVerifyRef, EntryView, OwnedCertificate, ServerCertificate,
    SignatureScheme,
};
use crate::hostname;
use crate::hostname::tls_hostname_match;
use crate::signature;
use crate::signature::{can_be_verified, verify_signature};
use core::marker::PhantomData;
use vstd::pervasive::unreached;
use vstd::prelude::*;
use vstd::string::*;

verus! {

/// The most octets that the hash of a handshake can have.
pub const HASH_MAXLEN: usize = 48;

/// A source of the present time.
pub trait TlsClock {
    /// The seconds since the Unix epoch, where they are known.
    fn now() -> Option<u64>;
}

/// The text that precedes the hash in what a server signs:
/// `TLS 1.3, server CertificateVerify` and an octet 0.
pub open spec fn context_string() -> Seq<u8> {
    seq![
        84, 76, 83, 32, 49, 46, 51, 44, 32,
        115, 101, 114, 118, 101, 114, 32,
        67, 101, 114, 116, 105, 102, 105, 99, 97, 116, 101, 86, 101, 114, 105, 102, 121, 0,
    ]
}

/// What a server signs in a handshake with the given hash: 64 spaces, the context string
/// and the hash.
pub open spec fn signed_message(hash: Seq<u8>) -> Seq<u8> {
    Seq::new(64, |i: int| 32u8) + context_string() + hash
}

/// What a server signs in a handshake with the given hash.
pub fn certificate_verify_message(hash: &[u8]) -> (message: Result<Message, TlsError>)
    ensures
        message is Ok <==> hash@.len() <= HASH_MAXLEN,
        message matches Ok(m) ==> {
            let octets = bounded::message_octets(m);
            &&& octets == signed_message(hash@)
            &&& octets.len() == 98 + hash@.len()
            &&& forall|i: int| 0 <= i < 64 ==> octets[i] == 0x20
            &&& octets.subrange(64, 98) == context_string()
            &&& octets.skip(98) == hash@
        },
        message matches Err(e) ==> e == TlsError::EncodeError,
{
    let context: [u8; 34] = [
        84, 76, 83, 32, 49, 46, 51, 44, 32,
        115, 101, 114, 118, 101, 114, 32,
        67, 101, 114, 116, 105, 102, 105, 99, 97, 116, 101, 86, 101, 114, 105, 102, 121, 0,
    ];
    let mut message: Message = bounded::empty_message();
    if !bounded::resize_message(&mut message, 64, 32) {
        return Err(TlsError::EncodeError);
    }
    assert(bounded::message_octets(message) =~= Seq::new(64, |i: int| 32u8));
    if !bounded::extend_message(&mut message, &context) {
        return Err(TlsError::EncodeError);
    }
    assert(context@ =~= context_string());
    if !bounded::extend_message(&mut message, hash) {
        return Err(TlsError::EncodeError);
    }
    proof {
        law_what_is_signed_octet_by_octet(hash@);
    }
    Ok(message)
}

/// What a verifier knows.
#[verifier::ext_equal]
pub struct VerifierView {
    /// The trust anchor.
    pub ca: EntryView,
    /// The host that the server has to be.
    pub host: Option<Seq<u8>>,
    /// The hash of the handshake up to the accepted certificate, until a signature was
    /// checked against it.
    pub transcript: Option<Seq<u8>>,
    /// The certificate message that was accepted last.
    pub certificate: Option<Seq<EntryView>>,
}

impl VerifierView {
    /// What becomes of a certificate message at a time, where at most `size` octets of
    /// certificates can be kept: the chain must be trusted, its names must match the host,
    /// and it must fit.
    pub open spec fn admission(
        self,
        entries: Seq<EntryView>,
        now: Option<u64>,
        size: nat,
    ) -> Result<(), TlsError> {
        match chain::chain_names(self.ca, entries, now) {
            Err(e) => Err(e),
            Ok(names) => if !hostname::names_match(names, self.host) {
                Err(TlsError::InvalidCertificate)
            } else if handshake::total_size(entries) > size {
                Err(TlsError::InsufficientSpace)
            } else {
                Ok(())
            },
        }
    }

    /// The verifier when it has accepted a certificate message.
    pub open spec fn accepting(self, transcript: Seq<u8>, entries: Seq<EntryView>) -> VerifierView {
        VerifierView { transcript: Some(transcript), certificate: Some(entries), ..self }
    }

    /// What becomes of a handshake signature: it must be one on the hash of the
    /// handshake, under the key of the accepted certificate.
    pub open spec fn signature_outcome(self, scheme: SignatureScheme, signature: Seq<u8>) -> Result<
        (),
        TlsError,
    > {
        if self.transcript->0.len() > HASH_MAXLEN {
            Err(TlsError::EncodeError)
        } else {
            signature::handshake_check(
                signed_message(self.transcript->0),
                self.certificate->0,
                scheme,
                signature,
            )
        }
    }

    /// Whether a handshake signature of a scheme can be checked: a certificate must have
    /// been accepted, no signature checked since, and its key be one to try the scheme
    /// with.
    pub open spec fn awaits_signature(self, scheme: SignatureScheme) -> bool {
        &&& self.transcript is Some
        &&& self.transcript->0.len() <= HASH_MAXLEN ==> signature::can_verify(
            self.certificate->0,
            scheme,
        )
    }

    /// The verifier when it has checked a signature.
    pub open spec fn signature_checked(self) -> VerifierView {
        VerifierView { transcript: None, ..self }
    }
}

/// A verifier of servers, which trusts the issuer `ca` and keeps at most `CERT_SIZE`
/// octets of certificates.
pub struct CertVerifier<'a, Clock: TlsClock, const CERT_SIZE: usize> {
    ca: Certificate<&'a [u8]>,
    host: Option<HostName>,
    certificate_transcript: Option<Vec<u8>>,
    certificate: Option<OwnedCertificate<CERT_SIZE>>,
    clock: PhantomData<Clock>,
}

impl<'a, Clock: TlsClock, const CERT_SIZE: usize> View for CertVerifier<'a, Clock, CERT_SIZE> {
    type V = VerifierView;

    closed spec fn view(&self) -> VerifierView {
        VerifierView {
            ca: self.ca@,
            host: bounded::optional_name_octets(self.host),
            transcript: match self.certificate_transcript {
                Some(transcript) => Some(transcript@),
                None => None,
            },
            certificate: match self.certificate {
                Some(certificate) => Some(certificate@),
                None => None,
            },
        }
    }
}

impl<'a, Clock: TlsClock, const CERT_SIZE: usize> CertVerifier<'a, Clock, CERT_SIZE> {
    /// A transcript is kept only together with the certificate that it is for.
    #[verifier::type_invariant]
    spec fn transcript_has_certificate(self) -> bool {
        self.certificate_transcript is Some ==> self.certificate is Some
    }

    /// A verifier that trusts `ca` and has no host to compare names with.
    #[must_use]
    pub fn new(ca: Certificate<&'a [u8]>) -> (verifier: Self)
        ensures
            verifier@ == (VerifierView {
                ca: ca@,
                host: None,
                transcript: None,
                certificate: None,
            }),
    {
        CertVerifier {
            ca,
            host: None,
            certificate_transcript: None,
            certificate: None,
            clock: PhantomData,
        }
    }

    /// Sets the host that servers have to be, where its name is not too long.
    pub fn set_hostname_verification(&mut self, hostname: &str) -> (set: Result<(), TlsError>)
        ensures
            set is Ok <==> hostname.spec_bytes().len() <= HOSTNAME_MAXLEN,
            set is Ok ==> final(self)@ == (VerifierView {
                host: Some(hostname.spec_bytes()),
                ..old(self)@
            }),
            set matches Err(e) ==> e == TlsError::InsufficientSpace && final(self)@ == old(self)@,
    {
        proof {
            use_type_invariant(&*self);
        }
        match bounded::host_name(hostname) {
            Some(name) => {
                self.host = Some(name);
                Ok(())
            },
            None => Err(TlsError::InsufficientSpace),
        }
    }

    /// Accepts a server's certificate message at the time `now`, if it is known, and keeps
    /// it with `transcript`, the hash of the handshake so far; or refuses it and keeps
    /// nothing.
    pub fn verify_certificate_at(
        &mut self,
        transcript: &[u8],
        cert: &ServerCertificate,
        now: Option<u64>,
    ) -> (verified: Result<(), TlsError>)
        ensures
            verified == old(self)@.admission(cert@, now, CERT_SIZE as nat),
            verified is Ok ==> final(self)@ == old(self)@.accepting(transcript@, cert@),
            verified is Err ==> final(self)@ == old(self)@,
    {
        let names = match verify_certificate_chain(&self.ca, cert, now) {
            Ok(names) => names,
            Err(e) => {
                return Err(e);
            },
        };
        if !tls_hostname_match(&names, &self.host) {
            return Err(TlsError::InvalidCertificate);
        }
        let owned: OwnedCertificate<CERT_SIZE> = match OwnedCertificate::copy_of(cert) {
            Ok(owned) => owned,
            Err(e) => {
                return Err(e);
            },
        };
        self.certificate = Some(owned);
        self.certificate_transcript = Some(vstd::slice::slice_to_vec(transcript));
        Ok(())
    }

    /// Accepts a server's certificate message at the time that the clock gives, or refuses
    /// it.
    pub fn verify_certificate(&mut self, transcript: &[u8], cert: ServerCertificate) -> (verified:
        Result<(), TlsError>)
        ensures
            exists|now: Option<u64>|
                call_ensures(Clock::now, (), now) && verified == #[trigger] old(self)@.admission(
                    cert@,
                    now,
                    CERT_SIZE as nat,
                ),
            verified is Ok ==> final(self)@ == old(self)@.accepting(transcript@, cert@),
            verified is Err ==> final(self)@ == old(self)@,
    {
        let now: Option<u64> = Clock::now();
        self.verify_certificate_at(transcript, &cert, now)
    }

    /// Checks a server's handshake signature under the accepted certificate. The hash of
    /// the handshake is used up, whether the signature is good or not.
    pub fn verify_signature(&mut self, verify: CertificateVerifyRef) -> (verified: Result<
        (),
        TlsError,
    >)
        requires
            old(self)@.awaits_signature(verify.signature_scheme),
        ensures
            verified == old(self)@.signature_outcome(verify.signature_scheme, verify.signature@),
            final(self)@ == old(self)@.signature_checked(),
    {
        proof {
            use_type_invariant(&*self);
        }
        let message: Result<Message, TlsError> = match &self.certificate_transcript {
            Some(handshake_hash) => certificate_verify_message(handshake_hash.as_slice()),
            None => unreached(),
        };
        self.certificate_transcript = None;
        match (message, &self.certificate) {
            (Ok(message), Some(owned)) => verify_signature(
                bounded::message_slice(&message),
                &owned.as_message(),
                &verify,
            ),
            (Err(e), _) => Err(e),
            (_, None) => unreached(),
        }
    }

    /// Checks a server's handshake signature where it can be checked, and gives nothing
    /// where it cannot.
    pub fn try_verify_signature(&mut self, verify: CertificateVerifyRef) -> (verified: Option<
        Result<(), TlsError>,
    >)
        ensures
            (match verified {
                Some(outcome) => {
                    &&& old(self)@.awaits_signature(verify.signature_scheme)
                    &&& outcome == old(self)@.signature_outcome(
                        verify.signature_scheme,
                        verify.signature@,
                    )
                    &&& final(self)@ == old(self)@.signature_checked()
                },
                None => {
                    &&& !old(self)@.awaits_signature(verify.signature_scheme)
                    &&& final(self)@ == old(self)@
                },
            }),
    {
        proof {
            use_type_invariant(&*self);
        }
        match (&self.certificate_transcript, &self.certificate) {
            (Some(hash), Some(owned)) => {
                if hash.len() <= HASH_MAXLEN && !can_be_verified(
                    &owned.as_message(),
                    verify.signature_scheme,
                ) {
                    return None;
                }
            },
            _ => {
                return None;
            },
        }
        Some(self.verify_signature(verify))
    }
}

/// Handshakes with different hashes are signed as different messages.
pub proof fn law_messages_tell_hashes_apart(hash: Seq<u8>, other: Seq<u8>)
    requires
        signed_message(hash) == signed_message(other),
    ensures
        hash == other,
{
    assert(signed_message(hash).skip(98) =~= hash);
    assert(signed_message(other).skip(98) =~= other);
}

/// A certificate message is accepted exactly where the trust anchor vouches for it, the
/// names of its first certificate match the host, and it fits.
pub proof fn law_accepted_means_trusted_and_named(
    verifier: VerifierView,
    entries: Seq<EntryView>,
    now: Option<u64>,
    size: nat,
)
    ensures
        verifier.admission(entries, now, size) is Ok <==> {
            &&& entries.len() > 0
            &&& chain::entry_key(verifier.ca) matches Some(key) && exists|n: int|
                chain::vouches_through(key, entries, n, now)
            &&& chain::entry_names(entries[0]) matches Some(names) && hostname::names_match(
                names,
                verifier.host,
            )
            &&& handshake::total_size(entries) <= size
        },
{
    chain::law_trusted_means_vouched_for(verifier.ca, entries, now);
}

/// The signature that follows an accepted certificate message must be one on the hash
/// that came with it, under the key of its first certificate.
pub proof fn law_signature_belongs_to_the_certificate(
    verifier: VerifierView,
    transcript: Seq<u8>,
    entries: Seq<EntryView>,
    scheme: SignatureScheme,
    signature: Seq<u8>,
)
    ensures
        verifier.accepting(transcript, entries).signature_outcome(scheme, signature) is Ok <==> {
            &&& transcript.len() <= HASH_MAXLEN
            &&& signature::is_supported(scheme)
            &&& signature::leaf_key(entries) matches Some(key) && signature::scheme_check(
                scheme,
                key,
                signed_message(transcript),
                signature,
            ) == Some(true)
        },
{
}

/// A server whose certificate message was accepted and whose signature was then good
/// holds the key of a certificate that the trust anchor vouches for and that names the
/// host, and signed this handshake with it.
pub proof fn law_a_verified_server_holds_the_named_key(
    verifier: VerifierView,
    transcript: Seq<u8>,
    entries: Seq<EntryView>,
    now: Option<u64>,
    size: nat,
    scheme: SignatureScheme,
    signature: Seq<u8>,
)
    requires
        verifier.admission(entries, now, size) is Ok,
        verifier.accepting(transcript, entries).signature_outcome(scheme, signature) is Ok,
    ensures
        chain::entry_key(verifier.ca) matches Some(key) && exists|n: int|
            chain::vouches_through(key, entries, n, now),
        chain::entry_names(entries[0]) matches Some(names) && hostname::names_match(
            names,
            verifier.host,
        ),
        chain::entry_key(entries[0]) matches Some(key) && signature::scheme_check(
            scheme,
            key,
            signed_message(transcript),
            signature,
        ) == Some(true),
{
    law_accepted_means_trusted_and_named(verifier, entries, now, size);
}

/// One accepted certificate message admits one signature check: a second one has to wait
/// for another certificate message.
pub proof fn law_a_transcript_is_used_once(verifier: VerifierView, scheme: SignatureScheme)
    ensures
        !verifier.signature_checked().awaits_signature(scheme),
        verifier.transcript is None ==> !verifier.awaits_signature(scheme),
{
}

/// What a server signs: 64 octets 0x20, the text `TLS 1.3, server CertificateVerify` and an
/// octet 0, and the hash, whatever the hash.
pub proof fn law_what_is_signed_octet_by_octet(hash: Seq<u8>)
    ensures
        signed_message(hash).len() == 98 + hash.len(),
        forall|i: int| 0 <= i < 64 ==> #[trigger] signed_message(hash)[i] == 0x20,
        signed_message(hash).subrange(64, 98) == seq![
            84u8, 76, 83, 32, 49, 46, 51, 44, 32,
            115, 101, 114, 118, 101, 114, 32,
            67, 101, 114, 116, 105, 102, 105, 99, 97, 116, 101, 86, 101, 114, 105, 102, 121, 0,
        ],
        signed_message(hash).subrange(64, 98) == context_string(),
        signed_message(hash).skip(98) == hash,
{
    assert(context_string().len() == 34);
    assert(signed_message(hash).subrange(64, 98) =~= context_string());
    assert(signed_message(hash).skip(98) =~= hash);
}

/// A certificate message is answered with the error of its chain; with `InvalidCertificate`
/// where the names of a trusted chain do not match the host; with `InsufficientSpace` where
/// it is too long; and is accepted otherwise.
pub proof fn law_every_certificate_message_is_answered(
    verifier: VerifierView,
    entries: Seq<EntryView>,
    now: Option<u64>,
    size: nat,
)
    ensures
        (match chain::chain_names(verifier.ca, entries, now) {
            Err(e) => verifier.admission(entries, now, size) == Err::<(), TlsError>(e),
            Ok(names) => {
                &&& !hostname::names_match(names, verifier.host) ==> verifier.admission(
                    entries,
                    now,
                    size,
                ) == Err::<(), TlsError>(TlsError::InvalidCertificate)
                &&& hostname::names_match(names, verifier.host) && handshake::total_size(entries)
                    > size ==> verifier.admission(entries, now, size) == Err::<(), TlsError>(
                    TlsError::InsufficientSpace,
                )
                &&& hostname::names_match(names, verifier.host) && handshake::total_size(entries)
                    <= size ==> verifier.admission(entries, now, size) is Ok
            },
        }),
{
}

/// An accepted message is kept with its hash in place of what was kept before, and a checked
/// signature takes the hash away; the trust anchor and the host stay.
pub proof fn law_what_a_verifier_keeps(
    verifier: VerifierView,
    transcript: Seq<u8>,
    entries: Seq<EntryView>,
)
    ensures
        ({
            let accepted = verifier.accepting(transcript, entries);
            let checked = accepted.signature_checked();
            &&& accepted.transcript == Some(transcript)
            &&& accepted.certificate == Some(entries)
            &&& accepted.ca == verifier.ca && accepted.host == verifier.host
            &&& checked.transcript is None
            &&& checked.certificate == Some(entries)
            &&& checked.ca == verifier.ca && checked.host == verifier.host
        }),
        verifier.signature_checked().transcript is None,
        verifier.signature_checked().certificate == verifier.certificate,
        verifier.signature_checked().ca == verifier.ca,
        verifier.signature_checked().host == verifier.host,
{
}

/// A handshake signature is checked against 64 octets 0x20, the context string and the kept
/// hash, under the kept certificate message; a hash of more than 48 octets is an error. It
/// can be checked as long as a hash is kept and the scheme can be tried with the key.
pub proof fn law_a_signature_is_checked_against_what_is_kept(
    verifier: VerifierView,
    transcript: Seq<u8>,
    entries: Seq<EntryView>,
    message: Seq<u8>,
    scheme: SignatureScheme,
    signature: Seq<u8>,
)
    requires
        verifier.transcript == Some(transcript),
        verifier.certificate == Some(entries),
        message.len() == 98 + transcript.len(),
        forall|i: int| 0 <= i < 64 ==> message[i] == 0x20,
        message.subrange(64, 98) == context_string(),
        message.skip(98) == transcript,
    ensures
        transcript.len() <= 48 ==> verifier.signature_outcome(scheme, signature)
            == signature::handshake_check(message, entries, scheme, signature),
        transcript.len() > 48 ==> verifier.signature_outcome(scheme, signature) == Err::<
            (),
            TlsError,
        >(TlsError::EncodeError),
        verifier.awaits_signature(scheme) <==> (transcript.len() <= 48 ==> signature::can_verify(
            entries,
            scheme,
        )),
{
    let signed = signed_message(transcript);
    law_what_is_signed_octet_by_octet(transcript);
    assert forall|i: int| 0 <= i < message.len() implies message[i] == signed[i] by {
        if 64 <= i < 98 {
            assert(message.subrange(64, 98)[i - 64] == signed.subrange(64, 98)[i - 64]);
        } else if i >= 98 {
            assert(message.skip(98)[i - 98] == signed.skip(98)[i - 98]);
        }
    }
    assert(message =~= signed);
}

} // verus!
