//! The chain from a server's certificate to a trust anchor.
use crate::certificate;
use crate::certificate::{CertificateView, DecodedCertificate};
use crate::error::{ParseError, TlsError};
use crate::handshake::{Certificate, CertificateEntryRef, EntryView, ServerCertificate};
use crate::hostname::{CertificateNames, NamesView};
use crate::signature;
use crate::signature::verify_signature_only;
use crate::subject;
use crate::subject::{extract_common_name, extract_san_dns_names};
use crate::time::get_cert_time;
use vstd::prelude::*;

verus! {

/// Whether a certificate is valid at a time, in seconds since the Unix epoch. Both
/// bounds of the period are part of it. Where the time is not known, it is valid.
pub open spec fn is_current(subject: CertificateView, now: Option<u64>) -> bool {
    now matches Some(seconds) ==> {
        let period = subject.tbs_certificate.validity;
        period.not_before.date_time().unix_seconds() <= seconds
            <= period.not_after.date_time().unix_seconds()
    }
}

/// The certificate of an entry, where it is one and decodes.
pub open spec fn x509_entry(entry: EntryView) -> Option<CertificateView> {
    match entry {
        EntryView::X509(der) => certificate::certificate(der),
        EntryView::RawPublicKey(_) => None,
    }
}

/// The public key of an entry's certificate.
pub open spec fn entry_key(entry: EntryView) -> Option<Seq<u8>> {
    match x509_entry(entry) {
        Some(decoded) => decoded.public_key(),
        None => None,
    }
}

/// The names in an entry's certificate.
pub open spec fn entry_names(entry: EntryView) -> Option<NamesView> {
    match x509_entry(entry) {
        Some(decoded) => match (
            subject::common_name(decoded.tbs_certificate),
            subject::san_dns_names(decoded.tbs_certificate),
        ) {
            (Ok(common_name), Ok(san_dns_names)) => Some(NamesView { common_name, san_dns_names }),
            _ => None,
        },
        None => None,
    }
}

/// Checks that a certificate is valid at the time `now`, in seconds since the Unix
/// epoch, where the time is known.
pub fn check_validity(subject: &DecodedCertificate, now: Option<u64>) -> (checked: Result<
    (),
    TlsError,
>)
    requires
        subject@.valid(),
    ensures
        checked is Ok <==> is_current(subject@, now),
        now is None ==> checked is Ok,
        now matches Some(seconds) ==> (checked is Ok <==> {
            let period = subject.tbs_certificate.validity;
            period.not_before.date_time().unix_seconds() <= seconds
                <= period.not_after.date_time().unix_seconds()
        }),
        checked matches Err(e) ==> e == TlsError::InvalidCertificate,
{
    if let Some(seconds) = now {
        if get_cert_time(&subject.tbs_certificate.validity.not_before) > seconds || get_cert_time(
            &subject.tbs_certificate.validity.not_after,
        ) < seconds {
            return Err(TlsError::InvalidCertificate);
        }
    }
    Ok(())
}

/// The encoding of an entry's certificate, and the certificate.
pub fn decode_x509_entry<'a>(entry: &CertificateEntryRef<'a>) -> (decoded: Result<
    (&'a [u8], DecodedCertificate<'a>),
    TlsError,
>)
    ensures
        decoded is Ok <==> x509_entry(entry@) is Some,
        decoded is Ok <==> (entry@ matches EntryView::X509(der) && certificate::certificate(
            der,
        ) is Some),
        decoded matches Ok((der, certificate)) ==> {
            &&& der@ == entry@.data()
            &&& x509_entry(entry@) == Some(certificate@)
            &&& certificate@.valid()
        },
        decoded matches Err(e) ==> e == TlsError::DecodeError,
{
    match entry {
        CertificateEntryRef::X509(der) => match DecodedCertificate::from_der(der) {
            Ok(certificate) => Ok((der, certificate)),
            Err(_) => Err(TlsError::DecodeError),
        },
        CertificateEntryRef::RawPublicKey(_) => Err(TlsError::DecodeError),
    }
}

/// What becomes of a certificate when a key was tried as its issuer's: the certificate
/// must be valid now where the key signed it.
pub open spec fn judgement(
    signed: Result<bool, TlsError>,
    subject: CertificateView,
    now: Option<u64>,
) -> Result<bool, TlsError> {
    match signed {
        Ok(true) => if is_current(subject, now) {
            Ok(true)
        } else {
            Err(TlsError::InvalidCertificate)
        },
        Ok(false) => Ok(false),
        Err(e) => Err(e),
    }
}

/// What becomes of a certificate when a key was tried as its issuer's.
pub fn judge(
    signed: Result<bool, TlsError>,
    subject: &DecodedCertificate,
    now: Option<u64>,
) -> (judged: Result<bool, TlsError>)
    requires
        subject@.valid(),
    ensures
        judged == judgement(signed, subject@, now),
        signed matches Err(e) ==> judged == Err::<bool, TlsError>(e),
        signed == Ok::<bool, TlsError>(false) ==> judged == Ok::<bool, TlsError>(false),
        signed == Ok::<bool, TlsError>(true) ==> {
            let period = subject.tbs_certificate.validity;
            let current = now matches Some(seconds)
                ==> period.not_before.date_time().unix_seconds() <= seconds
                <= period.not_after.date_time().unix_seconds();
            judged == (if current {
                Ok::<bool, TlsError>(true)
            } else {
                Err::<bool, TlsError>(TlsError::InvalidCertificate)
            })
        },
{
    match signed {
        Ok(true) => match check_validity(subject, now) {
            Ok(()) => Ok(true),
            Err(e) => Err(e),
        },
        Ok(false) => Ok(false),
        Err(e) => Err(e),
    }
}

/// What becomes of the certificate of an entry when a key is tried as its issuer's.
pub open spec fn issued_by(key: Seq<u8>, entry: EntryView, now: Option<u64>) -> Result<
    bool,
    TlsError,
> {
    match x509_entry(entry) {
        Some(decoded) => judgement(signature::signed_by(key, decoded, entry.data()), decoded, now),
        None => Err(TlsError::DecodeError),
    }
}

/// The walk from the entry `i` outward. The trust anchor's key is tried first; where it
/// did not sign the certificate, the next entry must have, and the walk goes on there.
pub open spec fn walk(
    anchor_key: Seq<u8>,
    entries: Seq<EntryView>,
    i: int,
    now: Option<u64>,
) -> Result<(), TlsError>
    decreases entries.len() - i,
{
    match issued_by(anchor_key, entries[i], now) {
        Err(e) => Err(e),
        Ok(true) => Ok(()),
        Ok(false) => if i + 1 >= entries.len() {
            Err(TlsError::InvalidCertificate)
        } else {
            match entry_key(entries[i + 1]) {
                None => Err(TlsError::DecodeError),
                Some(key) => match issued_by(key, entries[i], now) {
                    Err(e) => Err(e),
                    Ok(false) => Err(TlsError::InvalidCertificate),
                    Ok(true) => walk(anchor_key, entries, i + 1, now),
                },
            }
        },
    }
}

/// The names that a certificate message vouches for under a trust anchor, at a time.
pub open spec fn chain_names(
    anchor: EntryView,
    entries: Seq<EntryView>,
    now: Option<u64>,
) -> Result<NamesView, TlsError> {
    if entries.len() == 0 {
        Err(TlsError::InvalidCertificate)
    } else {
        match (entry_names(entries[0]), entry_key(anchor)) {
            (Some(names), Some(key)) => match walk(key, entries, 0, now) {
                Ok(()) => Ok(names),
                Err(e) => Err(e),
            },
            _ => Err(TlsError::DecodeError),
        }
    }
}

/// Whether the certificate of the entry `i` is valid at `now`, and signed by the key of
/// the entry after it.
pub open spec fn linked(entries: Seq<EntryView>, i: int, now: Option<u64>) -> bool {
    entry_key(entries[i + 1]) matches Some(key) && issued_by(key, entries[i], now) == Ok::<
        bool,
        TlsError,
    >(true)
}

/// Whether a trust anchor vouches for the first entry through the entries up to `n`: the
/// certificates up to `n` are valid at `now`, each before `n` is signed by the key of the
/// one after it, and the one at `n` by the key of the anchor.
pub open spec fn vouches_through(
    anchor_key: Seq<u8>,
    entries: Seq<EntryView>,
    n: int,
    now: Option<u64>,
) -> bool {
    &&& 0 <= n < entries.len()
    &&& issued_by(anchor_key, entries[n], now) == Ok::<bool, TlsError>(true)
    &&& forall|i: int| 0 <= i < n ==> #[trigger] linked(entries, i, now)
}

/// Validates a server's certificate chain against the trust anchor `ca`, at the time
/// `now` where it is known, and returns the names in the server's certificate.
///
/// The chain is walked from the server's certificate outward. At each step `ca` is tried
/// as the issuer first. As soon as it matches, the chain is trusted, and the entries that
/// are left are ignored: servers may send more certificates than a given trust anchor
/// needs. Until `ca` matches, each entry must be issued by the one after it.
pub fn verify_certificate_chain(
    ca: &Certificate<&[u8]>,
    cert: &ServerCertificate,
    now: Option<u64>,
) -> (verified: Result<CertificateNames, TlsError>)
    ensures
        (match verified {
            Ok(names) => chain_names(ca@, cert@, now) == Ok::<NamesView, TlsError>(names@),
            Err(e) => chain_names(ca@, cert@, now) == Err::<NamesView, TlsError>(e),
        }),
{
    if cert.entries.len() == 0 {
        return Err(TlsError::InvalidCertificate);
    }
    assert(cert@[0] == cert.entries@[0]@);
    let (leaf_der, leaf_decoded) = match decode_x509_entry(&cert.entries[0]) {
        Ok(decoded) => decoded,
        Err(e) => {
            return Err(e);
        },
    };
    let common_name = match extract_common_name(&leaf_decoded.tbs_certificate) {
        Ok(name) => name,
        Err(_) => {
            return Err(TlsError::DecodeError);
        },
    };
    let san_dns_names = match extract_san_dns_names(&leaf_decoded.tbs_certificate) {
        Ok(names) => names,
        Err(_) => {
            return Err(TlsError::DecodeError);
        },
    };
    let names = CertificateNames { common_name, san_dns_names };

    let ca_entry: CertificateEntryRef = ca.as_entry();
    let (_, ca_decoded) = match decode_x509_entry(&ca_entry) {
        Ok(decoded) => decoded,
        Err(e) => {
            return Err(e);
        },
    };
    let ca_public_key: &[u8] =
        match ca_decoded.tbs_certificate.subject_public_key_info.public_key.as_bytes() {
        Some(key) => key,
        None => {
            return Err(TlsError::DecodeError);
        },
    };

    let mut idx: usize = 0;
    let mut current_der: &[u8] = leaf_der;
    let mut current_decoded: DecodedCertificate = leaf_decoded;
    loop
        invariant
            idx < cert.entries@.len(),
            current_der@ == cert@[idx as int].data(),
            x509_entry(cert@[idx as int]) == Some(current_decoded@),
            current_decoded@.valid(),
            entry_names(cert@[0]) == Some(names@),
            entry_key(ca@) == Some(ca_public_key@),
            walk(ca_public_key@, cert@, 0, now) == walk(ca_public_key@, cert@, idx as int, now),
        decreases cert.entries@.len() - idx,
    {
        let by_ca = verify_signature_only(ca_public_key, &current_decoded, current_der);
        match judge(by_ca, &current_decoded, now) {
            Ok(true) => {
                return Ok(names);
            },
            Ok(false) => {},
            Err(e) => {
                return Err(e);
            },
        }
        if idx == cert.entries.len() - 1 {
            return Err(TlsError::InvalidCertificate);
        }
        assert(cert@[idx + 1] == cert.entries@[idx + 1]@);
        let (next_der, next_decoded) = match decode_x509_entry(&cert.entries[idx + 1]) {
            Ok(decoded) => decoded,
            Err(e) => {
                return Err(e);
            },
        };
        let next_public_key: &[u8] =
            match next_decoded.tbs_certificate.subject_public_key_info.public_key.as_bytes() {
            Some(key) => key,
            None => {
                return Err(TlsError::DecodeError);
            },
        };
        let by_next = verify_signature_only(next_public_key, &current_decoded, current_der);
        match judge(by_next, &current_decoded, now) {
            Ok(true) => {},
            Ok(false) => {
                return Err(TlsError::InvalidCertificate);
            },
            Err(e) => {
                return Err(e);
            },
        }
        idx = idx + 1;
        current_der = next_der;
        current_decoded = next_decoded;
    }
}

/// A key that issued a certificate and another one fail on it alike, or not at all.
proof fn lemma_issuers_agree_on_errors(
    key: Seq<u8>,
    other: Seq<u8>,
    entry: EntryView,
    now: Option<u64>,
)
    requires
        issued_by(key, entry, now) == Ok::<bool, TlsError>(true),
    ensures
        issued_by(other, entry, now) is Ok,
{
}

proof fn lemma_walk_reaches_the_anchor(
    anchor_key: Seq<u8>,
    entries: Seq<EntryView>,
    i: int,
    n: int,
    now: Option<u64>,
)
    requires
        vouches_through(anchor_key, entries, n, now),
        0 <= i <= n,
    ensures
        walk(anchor_key, entries, i, now) is Ok,
    decreases n - i,
{
    if i < n {
        assert(linked(entries, i, now));
        lemma_issuers_agree_on_errors(entry_key(entries[i + 1])->0, anchor_key, entries[i], now);
        lemma_walk_reaches_the_anchor(anchor_key, entries, i + 1, n, now);
    }
}

proof fn lemma_walk_follows_links(
    anchor_key: Seq<u8>,
    entries: Seq<EntryView>,
    i: int,
    now: Option<u64>,
) -> (n: int)
    requires
        0 <= i < entries.len(),
        forall|j: int| 0 <= j < i ==> #[trigger] linked(entries, j, now),
        walk(anchor_key, entries, i, now) is Ok,
    ensures
        vouches_through(anchor_key, entries, n, now),
    decreases entries.len() - i,
{
    if issued_by(anchor_key, entries[i], now) == Ok::<bool, TlsError>(true) {
        i
    } else {
        assert(linked(entries, i, now));
        lemma_walk_follows_links(anchor_key, entries, i + 1, now)
    }
}

/// A chain is trusted exactly where the names of its first certificate and the key of the
/// trust anchor decode, and the anchor vouches for the first entry through some entries.
pub proof fn law_trusted_means_vouched_for(
    anchor: EntryView,
    entries: Seq<EntryView>,
    now: Option<u64>,
)
    ensures
        chain_names(anchor, entries, now) is Ok <==> {
            &&& entries.len() > 0
            &&& entry_names(entries[0]) is Some
            &&& entry_key(anchor) matches Some(key) && exists|n: int|
                vouches_through(key, entries, n, now)
        },
{
    if entries.len() > 0 && entry_names(entries[0]) is Some && entry_key(anchor) is Some {
        let key = entry_key(anchor)->0;
        if walk(key, entries, 0, now) is Ok {
            let n = lemma_walk_follows_links(key, entries, 0, now);
            assert(vouches_through(key, entries, n, now));
        }
        if exists|n: int| vouches_through(key, entries, n, now) {
            let n = choose|n: int| vouches_through(key, entries, n, now);
            lemma_walk_reaches_the_anchor(key, entries, 0, n, now);
        }
    }
}

/// Every certificate through which a trust anchor vouches is valid at the time.
pub proof fn law_vouching_certificates_are_current(
    anchor_key: Seq<u8>,
    entries: Seq<EntryView>,
    n: int,
    i: int,
    now: Option<u64>,
)
    requires
        vouches_through(anchor_key, entries, n, now),
        0 <= i <= n,
    ensures
        x509_entry(entries[i]) matches Some(decoded) && is_current(decoded, now),
{
    if i < n {
        assert(linked(entries, i, now));
    }
}

/// Without an entry that the trust anchor signed, a chain is not trusted.
pub proof fn law_no_trust_without_the_anchor(
    anchor: EntryView,
    entries: Seq<EntryView>,
    now: Option<u64>,
)
    requires
        entry_key(anchor) matches Some(key) ==> forall|i: int|
            0 <= i < entries.len() ==> issued_by(key, #[trigger] entries[i], now) != Ok::<
                bool,
                TlsError,
            >(true),
    ensures
        chain_names(anchor, entries, now) is Err,
{
    law_trusted_means_vouched_for(anchor, entries, now);
}

/// The names of a trusted chain are those of its first certificate.
pub proof fn law_names_come_from_the_first_entry(
    anchor: EntryView,
    entries: Seq<EntryView>,
    now: Option<u64>,
)
    requires
        chain_names(anchor, entries, now) is Ok,
    ensures
        entry_names(entries[0]) == Some(chain_names(anchor, entries, now)->Ok_0),
{
}

/// Entries behind a trusted chain change nothing, whatever they are.
pub proof fn law_trailing_entries_are_ignored(
    anchor: EntryView,
    entries: Seq<EntryView>,
    more: Seq<EntryView>,
    now: Option<u64>,
)
    requires
        chain_names(anchor, entries, now) is Ok,
    ensures
        chain_names(anchor, entries + more, now) == chain_names(anchor, entries, now),
{
    let key = entry_key(anchor)->0;
    let n = lemma_walk_follows_links(key, entries, 0, now);
    let all = entries + more;
    assert(all[0] == entries[0]);
    assert forall|i: int| 0 <= i < n implies #[trigger] linked(all, i, now) by {
        assert(linked(entries, i, now));
        assert(all[i] == entries[i] && all[i + 1] == entries[i + 1]);
    }
    assert(all[n] == entries[n]);
    lemma_walk_reaches_the_anchor(key, all, 0, n, now);
}

/// A chain that is trusted at some time is trusted where the time is not known.
pub proof fn law_time_only_narrows_trust(
    anchor: EntryView,
    entries: Seq<EntryView>,
    now: Option<u64>,
)
    requires
        chain_names(anchor, entries, now) is Ok,
    ensures
        chain_names(anchor, entries, None) == chain_names(anchor, entries, now),
{
    let key = entry_key(anchor)->0;
    let n = lemma_walk_follows_links(key, entries, 0, now);
    assert forall|i: int| 0 <= i < n implies #[trigger] linked(entries, i, None) by {
        assert(linked(entries, i, now));
    }
    lemma_walk_reaches_the_anchor(key, entries, 0, n, None);
}

/// A bare public key is no trust anchor, and vouches for nothing as a first entry.
pub proof fn law_bare_keys_are_not_trusted(
    anchor: EntryView,
    entries: Seq<EntryView>,
    now: Option<u64>,
)
    requires
        entries.len() > 0,
        anchor is RawPublicKey || entries[0] is RawPublicKey,
    ensures
        chain_names(anchor, entries, now) == Err::<NamesView, TlsError>(TlsError::DecodeError),
{
}

/// A chain is trusted, with the names of its first certificate, wherever its entries start
/// with certificates that are valid at the time, each signed by the key of the next one and
/// the last by the key of the anchor. `certs` are those certificates and `issuers` the keys
/// that signed them.
pub proof fn law_a_signed_chain_is_trusted(
    anchor_der: Seq<u8>,
    ca: CertificateView,
    entries: Seq<EntryView>,
    certs: Seq<CertificateView>,
    issuers: Seq<Seq<u8>>,
    now: Option<u64>,
    names: NamesView,
)
    requires
        certificate::certificate(anchor_der) == Some(ca),
        ca.tbs_certificate.subject_public_key_info.public_key.unused_bits == 0,
        0 < certs.len() <= entries.len(),
        issuers.len() == certs.len(),
        issuers.last() == ca.tbs_certificate.subject_public_key_info.public_key.raw_bytes,
        forall|i: int|
            0 <= i < certs.len() - 1 ==> {
                let key = certs[i + 1].tbs_certificate.subject_public_key_info.public_key;
                key.unused_bits == 0 && #[trigger] issuers[i] == key.raw_bytes
            },
        forall|i: int|
            0 <= i < certs.len() ==> entries[i] is X509 && certificate::certificate(
                entries[i]->X509_0,
            ) == Some(#[trigger] certs[i]),
        forall|i: int|
            0 <= i < certs.len() ==> signature::signed_by(
                #[trigger] issuers[i],
                certs[i],
                entries[i]->X509_0,
            ) == Ok::<bool, TlsError>(true),
        now matches Some(seconds) ==> forall|i: int|
            0 <= i < certs.len() ==> (#[trigger] certs[
                i
            ]).tbs_certificate.validity.not_before.date_time().unix_seconds() <= seconds
                <= certs[i].tbs_certificate.validity.not_after.date_time().unix_seconds(),
        subject::common_name(certs[0].tbs_certificate) == Ok::<
            Option<Seq<u8>>,
            ParseError,
        >(names.common_name),
        subject::san_dns_names(certs[0].tbs_certificate) == Ok::<
            Seq<Seq<u8>>,
            ParseError,
        >(names.san_dns_names),
    ensures
        chain_names(EntryView::X509(anchor_der), entries, now) == Ok::<NamesView, TlsError>(names),
{
    let key = entry_key(EntryView::X509(anchor_der))->0;
    let n = certs.len() - 1;
    assert forall|i: int| 0 <= i <= n implies #[trigger] issued_by(issuers[i], entries[i], now)
        == Ok::<bool, TlsError>(true) by {
        assert(x509_entry(entries[i]) == Some(certs[i]));
        assert(is_current(certs[i], now));
    }
    assert forall|i: int| 0 <= i < n implies #[trigger] linked(entries, i, now) by {
        assert(issued_by(issuers[i], entries[i], now) == Ok::<bool, TlsError>(true));
        assert(x509_entry(entries[i + 1]) == Some(certs[i + 1]));
    }
    assert(issued_by(issuers[n], entries[n], now) == Ok::<bool, TlsError>(true));
    assert(x509_entry(entries[0]) == Some(certs[0]));
    lemma_walk_reaches_the_anchor(key, entries, 0, n, now);
}

spec fn is_signed(
    key: Seq<u8>,
    subject: CertificateView,
    entry: EntryView,
    now: Option<u64>,
) -> bool {
    &&& entry is X509
    &&& certificate::certificate(entry->X509_0) == Some(subject)
    &&& signature::signed_by(key, subject, entry->X509_0) == Ok::<bool, TlsError>(true)
    &&& is_current(subject, now)
}

proof fn lemma_issued_is_signed(key: Seq<u8>, entry: EntryView, now: Option<u64>)
    requires
        issued_by(key, entry, now) == Ok::<bool, TlsError>(true),
    ensures
        is_signed(key, x509_entry(entry)->0, entry, now),
{
}

/// Where a chain is trusted, its entries start with certificates that are valid at the time,
/// each signed by the key of the next one and the last by the key of the anchor, and its
/// names are those of the first. The result is the anchor's certificate, those certificates
/// and the keys that signed them.
pub proof fn law_a_trusted_chain_is_signed(
    anchor: EntryView,
    entries: Seq<EntryView>,
    now: Option<u64>,
    names: NamesView,
) -> (path: (CertificateView, Seq<CertificateView>, Seq<Seq<u8>>))
    requires
        chain_names(anchor, entries, now) == Ok::<NamesView, TlsError>(names),
    ensures
        anchor is X509 && certificate::certificate(anchor->X509_0) == Some(path.0),
        path.0.tbs_certificate.subject_public_key_info.public_key.unused_bits == 0,
        0 < path.1.len() <= entries.len(),
        path.2.len() == path.1.len(),
        path.2.last() == path.0.tbs_certificate.subject_public_key_info.public_key.raw_bytes,
        forall|i: int|
            0 <= i < path.1.len() - 1 ==> #[trigger] path.2[i] == path.1[i
                + 1].tbs_certificate.subject_public_key_info.public_key.raw_bytes && path.1[i
                + 1].tbs_certificate.subject_public_key_info.public_key.unused_bits == 0,
        forall|i: int|
            0 <= i < path.1.len() ==> #[trigger] entries[i] is X509 && certificate::certificate(
                entries[i]->X509_0,
            ) == Some(path.1[i]),
        forall|i: int|
            0 <= i < path.1.len() ==> signature::signed_by(
                #[trigger] path.2[i],
                path.1[i],
                entries[i]->X509_0,
            ) == Ok::<bool, TlsError>(true),
        now matches Some(seconds) ==> forall|i: int|
            0 <= i < path.1.len() ==> (#[trigger] path.1[
                i
            ]).tbs_certificate.validity.not_before.date_time().unix_seconds() <= seconds
                <= path.1[i].tbs_certificate.validity.not_after.date_time().unix_seconds(),
        subject::common_name(path.1[0].tbs_certificate) == Ok::<Option<Seq<u8>>, ParseError>(
            names.common_name,
        ),
        subject::san_dns_names(path.1[0].tbs_certificate) == Ok::<Seq<Seq<u8>>, ParseError>(
            names.san_dns_names,
        ),
{
    let key = entry_key(anchor)->0;
    let n = lemma_walk_follows_links(key, entries, 0, now);
    let ca = x509_entry(anchor)->0;
    let certs = Seq::new((n + 1) as nat, |i: int| x509_entry(entries[i])->0);
    let issuers = Seq::new(
        (n + 1) as nat,
        |i: int|
            if i == n {
                key
            } else {
                entry_key(entries[i + 1])->0
            },
    );
    assert forall|i: int| 0 <= i < certs.len() implies is_signed(
        #[trigger] issuers[i],
        certs[i],
        entries[i],
        now,
    ) by {
        if i < n {
            assert(linked(entries, i, now));
        }
        lemma_issued_is_signed(issuers[i], entries[i], now);
    }
    assert forall|i: int| 0 <= i < certs.len() implies #[trigger] entries[i] is X509
        && certificate::certificate(entries[i]->X509_0) == Some(certs[i]) by {
        assert(is_signed(issuers[i], certs[i], entries[i], now));
    }
    assert forall|i: int| 0 <= i < certs.len() implies is_current(#[trigger] certs[i], now) by {
        assert(is_signed(issuers[i], certs[i], entries[i], now));
    }
    assert forall|i: int| 0 <= i < certs.len() - 1 implies #[trigger] issuers[i] == certs[i
        + 1].tbs_certificate.subject_public_key_info.public_key.raw_bytes && certs[i
        + 1].tbs_certificate.subject_public_key_info.public_key.unused_bits == 0 by {
        assert(linked(entries, i, now));
        assert(certs[i + 1] == x509_entry(entries[i + 1])->0);
    }
    (ca, certs, issuers)
}

proof fn lemma_walk_goes_on(anchor_key: Seq<u8>, entries: Seq<EntryView>, k: int, now: Option<u64>)
    requires
        0 <= k < entries.len(),
        forall|i: int|
            0 <= i < k ==> issued_by(anchor_key, #[trigger] entries[i], now) == Ok::<
                bool,
                TlsError,
            >(false),
        forall|i: int| 0 <= i < k ==> #[trigger] linked(entries, i, now),
    ensures
        walk(anchor_key, entries, 0, now) == walk(anchor_key, entries, k, now),
    decreases k,
{
    if k > 0 {
        lemma_walk_goes_on(anchor_key, entries, k - 1, now);
        assert(linked(entries, k - 1, now));
        assert(issued_by(anchor_key, entries[k - 1], now) == Ok::<bool, TlsError>(false));
    }
}

/// The walk fails at the first certificate with a flaw, and the flaw says how. Before it, the
/// anchor signed none of the certificates, each is valid at the time and signed by the key
/// of the next. `certs` are the certificates up to the one with the flaw, and `issuers` the
/// keys that signed those before it.
pub proof fn law_a_chain_fails_at_its_first_flaw(
    anchor_der: Seq<u8>,
    ca: CertificateView,
    entries: Seq<EntryView>,
    certs: Seq<CertificateView>,
    issuers: Seq<Seq<u8>>,
    now: Option<u64>,
)
    requires
        certificate::certificate(anchor_der) == Some(ca),
        ca.tbs_certificate.subject_public_key_info.public_key.unused_bits == 0,
        0 < certs.len() <= entries.len(),
        entry_names(entries[0]) is Some,
        forall|i: int|
            0 <= i < certs.len() ==> entries[i] is X509 && certificate::certificate(
                entries[i]->X509_0,
            ) == Some(#[trigger] certs[i]),
        forall|i: int|
            0 <= i < certs.len() - 1 ==> signature::signed_by(
                ca.tbs_certificate.subject_public_key_info.public_key.raw_bytes,
                #[trigger] certs[i],
                entries[i]->X509_0,
            ) == Ok::<bool, TlsError>(false),
        issuers.len() == certs.len() - 1,
        forall|i: int|
            0 <= i < certs.len() - 1 ==> {
                let key = certs[i + 1].tbs_certificate.subject_public_key_info.public_key;
                key.unused_bits == 0 && #[trigger] issuers[i] == key.raw_bytes
            },
        forall|i: int|
            0 <= i < certs.len() - 1 ==> signature::signed_by(
                #[trigger] issuers[i],
                certs[i],
                entries[i]->X509_0,
            ) == Ok::<bool, TlsError>(true),
        now matches Some(seconds) ==> forall|i: int|
            0 <= i < certs.len() - 1 ==> (#[trigger] certs[
                i
            ]).tbs_certificate.validity.not_before.date_time().unix_seconds() <= seconds
                <= certs[i].tbs_certificate.validity.not_after.date_time().unix_seconds(),
    ensures
        ({
            let k = certs.len() - 1;
            let outcome = chain_names(EntryView::X509(anchor_der), entries, now);
            let by_anchor = signature::signed_by(
                ca.tbs_certificate.subject_public_key_info.public_key.raw_bytes,
                certs[k],
                entries[k]->X509_0,
            );
            let period = certs[k].tbs_certificate.validity;
            let current = now matches Some(seconds)
                ==> period.not_before.date_time().unix_seconds() <= seconds
                <= period.not_after.date_time().unix_seconds();
            let invalid = Err::<NamesView, TlsError>(TlsError::InvalidCertificate);
            &&& by_anchor matches Err(e) ==> outcome == Err::<NamesView, TlsError>(e)
            &&& by_anchor == Ok::<bool, TlsError>(true) && !current ==> outcome == invalid
            &&& by_anchor == Ok::<bool, TlsError>(false) && k + 1 == entries.len() ==> outcome
                == invalid
            &&& by_anchor == Ok::<bool, TlsError>(false) && k + 1 < entries.len() ==> {
                if entries[k + 1] is X509 && certificate::certificate(
                    entries[k + 1]->X509_0,
                ) is Some {
                    let next = certificate::certificate(
                        entries[k + 1]->X509_0,
                    )->0.tbs_certificate.subject_public_key_info.public_key;
                    let by_next = signature::signed_by(
                        next.raw_bytes,
                        certs[k],
                        entries[k]->X509_0,
                    );
                    &&& next.unused_bits != 0 ==> outcome == Err::<NamesView, TlsError>(
                        TlsError::DecodeError,
                    )
                    &&& next.unused_bits == 0 && (by_next == Ok::<bool, TlsError>(false)
                        || !current) ==> outcome == invalid
                } else {
                    outcome == Err::<NamesView, TlsError>(TlsError::DecodeError)
                }
            }
        }),
{
    let key = ca.tbs_certificate.subject_public_key_info.public_key.raw_bytes;
    let k = certs.len() - 1;
    assert forall|i: int| 0 <= i < k implies issued_by(key, #[trigger] entries[i], now) == Ok::<
        bool,
        TlsError,
    >(false) by {
        assert(x509_entry(entries[i]) == Some(certs[i]));
    }
    assert forall|i: int| 0 <= i < k implies #[trigger] linked(entries, i, now) by {
        assert(x509_entry(entries[i]) == Some(certs[i]));
        assert(x509_entry(entries[i + 1]) == Some(certs[i + 1]));
        assert(entry_key(entries[i + 1]) == Some(issuers[i]));
        assert(is_current(certs[i], now));
    }
    lemma_walk_goes_on(key, entries, k, now);
    assert(x509_entry(entries[k]) == Some(certs[k]));
    assert(entry_key(EntryView::X509(anchor_der)) == Some(key));
    if k + 1 < entries.len() {
        if let Some(next) = entry_key(entries[k + 1]) {
            signature::law_errors_come_from_the_subject(key, next, certs[k], entries[k]->X509_0);
        }
    }
}

/// A chain without entries is invalid. One whose first entry, or whose anchor, is not a
/// certificate that decodes, has names that cannot be kept, or an anchor with a key of odd
/// bits, is not decoded.
pub proof fn law_what_does_not_decode_is_not_walked(
    anchor: EntryView,
    entries: Seq<EntryView>,
    now: Option<u64>,
)
    ensures
        entries.len() == 0 ==> chain_names(anchor, entries, now) == Err::<NamesView, TlsError>(
            TlsError::InvalidCertificate,
        ),
        entries.len() > 0 ==> {
            let leaf = certificate::certificate(entries[0]->X509_0);
            let ca = certificate::certificate(anchor->X509_0);
            &&& !(entries[0] is X509 && leaf is Some && subject::common_name(
                leaf->0.tbs_certificate,
            ) is Ok && subject::san_dns_names(leaf->0.tbs_certificate) is Ok && anchor is X509
                && ca is Some
                && ca->0.tbs_certificate.subject_public_key_info.public_key.unused_bits == 0)
                ==> chain_names(anchor, entries, now) == Err::<NamesView, TlsError>(
                TlsError::DecodeError,
            )
            &&& entries[0] is X509 && leaf is Some ==> (entry_names(entries[0]) is Some <==> (
            subject::common_name(leaf->0.tbs_certificate) is Ok && subject::san_dns_names(
                leaf->0.tbs_certificate,
            ) is Ok))
        },
{
}

} // verus!
