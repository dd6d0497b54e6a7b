//! The handshake messages in which a server authenticates itself.
use crate::error::TlsError;
use vstd::prelude::*;

verus! {

/// The most entries that a certificate message can have.
pub const MAX_ENTRIES: usize = 16;

/// A certificate or a bare public key, as configured or kept.
pub enum Certificate<D> {
    /// A DER-encoded X.509 certificate.
    X509(D),
    /// A public key without a certificate.
    RawPublicKey(D),
}

/// An entry of a certificate message.
#[derive(Clone, Copy)]
pub enum CertificateEntryRef<'a> {
    /// A DER-encoded X.509 certificate.
    X509(&'a [u8]),
    /// A public key without a certificate.
    RawPublicKey(&'a [u8]),
}

/// The contents of an entry of a certificate message.
#[verifier::ext_equal]
pub enum EntryView {
    /// A DER-encoded X.509 certificate.
    X509(Seq<u8>),
    /// A public key without a certificate.
    RawPublicKey(Seq<u8>),
}

impl EntryView {
    /// The octets of the entry.
    pub open spec fn data(self) -> Seq<u8> {
        match self {
            EntryView::X509(data) => data,
            EntryView::RawPublicKey(data) => data,
        }
    }
}

impl<'a> View for CertificateEntryRef<'a> {
    type V = EntryView;

    open spec fn view(&self) -> EntryView {
        match self {
            CertificateEntryRef::X509(der) => EntryView::X509(der@),
            CertificateEntryRef::RawPublicKey(key) => EntryView::RawPublicKey(key@),
        }
    }
}

impl<'a> View for Certificate<&'a [u8]> {
    type V = EntryView;

    open spec fn view(&self) -> EntryView {
        match self {
            Certificate::X509(der) => EntryView::X509(der@),
            Certificate::RawPublicKey(key) => EntryView::RawPublicKey(key@),
        }
    }
}

impl View for Certificate<Vec<u8>> {
    type V = EntryView;

    open spec fn view(&self) -> EntryView {
        match self {
            Certificate::X509(der) => EntryView::X509(der@),
            Certificate::RawPublicKey(key) => EntryView::RawPublicKey(key@),
        }
    }
}

impl<'a> Certificate<&'a [u8]> {
    /// The certificate as an entry of a certificate message.
    pub fn as_entry(&self) -> (entry: CertificateEntryRef<'a>)
        ensures
            entry@ == self@,
    {
        match self {
            Certificate::X509(der) => CertificateEntryRef::X509(der),
            Certificate::RawPublicKey(key) => CertificateEntryRef::RawPublicKey(key),
        }
    }
}

/// The certificate message of a server: its own certificate first, then those that
/// lead to a trust anchor.
pub struct ServerCertificate<'a> {
    /// The context that the request for the certificate had.
    pub request_context: &'a [u8],
    /// The entries.
    pub entries: Vec<CertificateEntryRef<'a>>,
}

impl<'a> View for ServerCertificate<'a> {
    type V = Seq<EntryView>;

    open spec fn view(&self) -> Seq<EntryView> {
        self.entries@.map_values(|e: CertificateEntryRef<'a>| e@)
    }
}

impl<'a> ServerCertificate<'a> {
    /// A certificate message without entries.
    pub fn with_context(request_context: &'a [u8]) -> (cert: ServerCertificate<'a>)
        ensures
            cert.request_context@ == request_context@,
            cert@ == Seq::<EntryView>::empty(),
    {
        let cert = ServerCertificate { request_context, entries: Vec::new() };
        assert(cert@ =~= Seq::<EntryView>::empty());
        cert
    }

    /// Appends an entry, where there are fewer than `MAX_ENTRIES`.
    pub fn add(&mut self, entry: CertificateEntryRef<'a>) -> (added: Result<(), TlsError>)
        ensures
            final(self).request_context@ == old(self).request_context@,
            old(self)@.len() < MAX_ENTRIES ==> added is Ok && final(self)@ == old(self)@.push(
                entry@,
            ),
            old(self)@.len() >= MAX_ENTRIES ==> added == Err::<(), TlsError>(
                TlsError::InsufficientSpace,
            ) && final(self)@ == old(self)@,
    {
        if self.entries.len() >= MAX_ENTRIES {
            return Err(TlsError::InsufficientSpace);
        }
        self.entries.push(entry);
        assert(self@ =~= old(self)@.push(entry@));
        Ok(())
    }
}

/// The number of octets in entries.
pub open spec fn total_size(entries: Seq<EntryView>) -> nat
    decreases entries.len(),
{
    if entries.len() == 0 {
        0
    } else {
        total_size(entries.drop_last()) + entries.last().data().len()
    }
}

/// A copy of the entries of a certificate message, of at most `CERT_SIZE` octets.
pub struct OwnedCertificate<const CERT_SIZE: usize> {
    entries: Vec<Certificate<Vec<u8>>>,
}

impl<const CERT_SIZE: usize> View for OwnedCertificate<CERT_SIZE> {
    type V = Seq<EntryView>;

    closed spec fn view(&self) -> Seq<EntryView> {
        self.entries@.map_values(|e: Certificate<Vec<u8>>| e@)
    }
}

proof fn lemma_total_size_of_prefix(entries: Seq<EntryView>, n: int)
    requires
        0 <= n <= entries.len(),
    ensures
        total_size(entries.take(n)) <= total_size(entries),
    decreases entries.len() - n,
{
    if n == entries.len() {
        assert(entries.take(n) =~= entries);
    } else {
        assert(entries.take(n + 1).drop_last() =~= entries.take(n));
        lemma_total_size_of_prefix(entries, n + 1);
    }
}

impl<const CERT_SIZE: usize> OwnedCertificate<CERT_SIZE> {
    /// Copies the entries of a certificate message, where they fit.
    pub fn copy_of(cert: &ServerCertificate) -> (copy: Result<
        OwnedCertificate<CERT_SIZE>,
        TlsError,
    >)
        ensures
            copy is Ok <==> total_size(cert@) <= CERT_SIZE,
            copy matches Ok(c) ==> c@ == cert@,
            copy matches Err(e) ==> e == TlsError::InsufficientSpace,
    {
        let mut entries: Vec<Certificate<Vec<u8>>> = Vec::new();
        let mut used: usize = 0;
        let ghost mut done = Seq::<EntryView>::empty();
        assert(done =~= cert@.take(0));
        for i in 0..cert.entries.len()
            invariant
                done == cert@.take(i as int),
                entries@.map_values(|e: Certificate<Vec<u8>>| e@) =~= done,
                used == total_size(done),
                used <= CERT_SIZE,
        {
            let entry: CertificateEntryRef = cert.entries[i];
            let data: &[u8] = match entry {
                CertificateEntryRef::X509(der) => der,
                CertificateEntryRef::RawPublicKey(key) => key,
            };
            assert(cert@.take(i + 1).drop_last() =~= cert@.take(i as int));
            assert(cert@.take(i + 1).last() == entry@);
            if data.len() > CERT_SIZE - used {
                proof {
                    lemma_total_size_of_prefix(cert@, i + 1);
                }
                return Err(TlsError::InsufficientSpace);
            }
            used = used + data.len();
            let owned: Vec<u8> = vstd::slice::slice_to_vec(data);
            match entry {
                CertificateEntryRef::X509(_) => entries.push(Certificate::X509(owned)),
                CertificateEntryRef::RawPublicKey(_) => entries.push(
                    Certificate::RawPublicKey(owned),
                ),
            }
            proof {
                done = cert@.take(i + 1);
            }
        }
        assert(cert@.take(cert@.len() as int) =~= cert@);
        Ok(OwnedCertificate { entries })
    }

    /// The certificate message that was copied, without its context.
    pub fn as_message(&self) -> (cert: ServerCertificate<'_>)
        ensures
            cert@ == self@,
            cert.request_context@.len() == 0,
    {
        let mut entries: Vec<CertificateEntryRef<'_>> = Vec::new();
        for i in 0..self.entries.len()
            invariant
                entries@.len() == i,
                forall|j: int| 0 <= j < i ==> (#[trigger] entries@[j])@ == self@[j],
        {
            let entry: CertificateEntryRef<'_> = match &self.entries[i] {
                Certificate::X509(der) => CertificateEntryRef::X509(der.as_slice()),
                Certificate::RawPublicKey(key) => CertificateEntryRef::RawPublicKey(
                    key.as_slice(),
                ),
            };
            assert(entry@ == self@[i as int]);
            entries.push(entry);
        }
        let cert = ServerCertificate { request_context: &[], entries };
        assert(cert@ =~= self@);
        cert
    }
}

/// The signature schemes of TLS 1.3.
#[derive(Debug, Clone, Copy, PartialEq, Eq, Structural)]
pub enum SignatureScheme {
    /// RSASSA-PKCS1-v1_5 with SHA-256.
    RsaPkcs1Sha256,
    /// RSASSA-PKCS1-v1_5 with SHA-384.
    RsaPkcs1Sha384,
    /// RSASSA-PKCS1-v1_5 with SHA-512.
    RsaPkcs1Sha512,
    /// ECDSA with P-256 and SHA-256.
    EcdsaSecp256r1Sha256,
    /// ECDSA with P-384 and SHA-384.
    EcdsaSecp384r1Sha384,
    /// ECDSA with P-521 and SHA-512.
    EcdsaSecp521r1Sha512,
    /// RSASSA-PSS with SHA-256 and a key for any use of RSA.
    RsaPssRsaeSha256,
    /// RSASSA-PSS with SHA-384 and a key for any use of RSA.
    RsaPssRsaeSha384,
    /// RSASSA-PSS with SHA-512 and a key for any use of RSA.
    RsaPssRsaeSha512,
    /// Ed25519.
    Ed25519,
    /// Ed448.
    Ed448,
    /// RSASSA-PSS with SHA-256 and a key for RSASSA-PSS alone.
    RsaPssPssSha256,
    /// RSASSA-PSS with SHA-384 and a key for RSASSA-PSS alone.
    RsaPssPssSha384,
    /// RSASSA-PSS with SHA-512 and a key for RSASSA-PSS alone.
    RsaPssPssSha512,
    /// RSASSA-PKCS1-v1_5 with SHA-1.
    RsaPkcs1Sha1,
    /// ECDSA with SHA-1.
    EcdsaSha1,
}

/// The certificate-verify message of a server.
#[derive(Clone, Copy)]
pub struct CertificateVerifyRef<'a> {
    /// The scheme of the signature.
    pub signature_scheme: SignatureScheme,
    /// The signature.
    pub signature: &'a [u8],
}

/// The size of entries is the sum of the sizes of their parts, and that of one entry is the
/// number of its octets.
pub proof fn law_sizes_add_up(entries: Seq<EntryView>, more: Seq<EntryView>, octets: Seq<u8>)
    ensures
        total_size(Seq::<EntryView>::empty()) == 0,
        total_size(seq![EntryView::X509(octets)]) == octets.len(),
        total_size(seq![EntryView::RawPublicKey(octets)]) == octets.len(),
        total_size(entries + more) == total_size(entries) + total_size(more),
    decreases more.len(),
{
    reveal_with_fuel(total_size, 2);
    let (a, b) = (seq![EntryView::X509(octets)], seq![EntryView::RawPublicKey(octets)]);
    assert(a.drop_last() =~= Seq::<EntryView>::empty());
    assert(b.drop_last() =~= Seq::<EntryView>::empty());
    if more.len() == 0 {
        assert(entries + more =~= entries);
    } else {
        assert((entries + more).drop_last() =~= entries + more.drop_last());
        law_sizes_add_up(entries, more.drop_last(), octets);
    }
}

/// A message shows each of its entries, in their order, and an entry shows its kind and its
/// octets.
pub proof fn law_views_show_every_entry(cert: ServerCertificate, data: &[u8], i: int)
    ensures
        CertificateEntryRef::X509(data)@ == EntryView::X509(data@),
        CertificateEntryRef::RawPublicKey(data)@ == EntryView::RawPublicKey(data@),
        Certificate::X509(data)@ == EntryView::X509(data@),
        Certificate::RawPublicKey(data)@ == EntryView::RawPublicKey(data@),
        EntryView::X509(data@).data() == data@,
        EntryView::RawPublicKey(data@).data() == data@,
        cert@.len() == cert.entries@.len(),
        0 <= i < cert.entries@.len() ==> cert@[i] == cert.entries@[i]@,
{
}

} // verus!
