use pki::error::TlsError;
use pki::handshake::{
    Certificate, CertificateEntryRef, CertificateVerifyRef, OwnedCertificate, ServerCertificate,
    SignatureScheme,
};
use pki::server::{certificate_verify_message, CertVerifier, TlsClock};

const CA: &str = "\
    308201503081f7a003020102020203e9300a06082a8648ce3d04030230273110300e060355040a0c0745\
    78616d706c653113301106035504030c0a4578616d706c65204341301e170d3234303130313030303030\
    305a170d3334303130313030303030305a30273110300e060355040a0c074578616d706c653113301106\
    035504030c0a4578616d706c652043413059301306072a8648ce3d020106082a8648ce3d030107034200\
    044102ecb299516426d17f79188946cc8b1ba3913186d96987598d65c4b811b7b3e8874d0470c5a627e0\
    643dc867a15e50bc7fa615eba9bae510cf780b0d3fa371a3133011300f0603551d130101ff0405300301\
    01ff300a06082a8648ce3d0403020348003045022100eafbbf8298f044b3579f4ade75758bddce33480f\
    e9d3d6af29657ef46a76cc3a022076f42e36cb409fe55454f0fb3d60d7dc25fa556b1e4cdb9ff0209650\
    8724ad04";

const INTERMEDIATE: &str = "\
    3082015b30820101a003020102020203ea300a06082a8648ce3d04030230273110300e060355040a0c07\
    4578616d706c653113301106035504030c0a4578616d706c65204341301e170d32343031303130303030\
    30305a170d3334303130313030303030305a30313110300e060355040a0c074578616d706c65311d301b\
    06035504030c144578616d706c6520496e7465726d6564696174653059301306072a8648ce3d02010608\
    2a8648ce3d03010703420004a55078e0d046f8f02db934b091122ec14113dfe4651215707c3de66cf8f0\
    121c128adb5d0c9ddeb43d320a51571ab9566c176928003bd04df1040ced1c6cf671a3133011300f0603\
    551d130101ff040530030101ff300a06082a8648ce3d04030203480030450221008feb6083e218858ebd\
    18c772ccfb401e2e5485e1c7ace325d69f5bbb71f4304d02204ba05f380ec111b7162700b83342e7686c\
    562b27b6cf5083bb10ac2ff98fff89";

const SERVER: &str = "\
    308201843082012aa003020102020203eb300a06082a8648ce3d04030230313110300e060355040a0c07\
    4578616d706c65311d301b06035504030c144578616d706c6520496e7465726d656469617465301e170d\
    3234303130313030303030305a170d3334303130313030303030305a302f3110300e060355040a0c0745\
    78616d706c65311b301906035504030c127365727665722e6578616d706c652e636f6d3059301306072a\
    8648ce3d020106082a8648ce3d03010703420004ccd1baa0d8ffb97e26311430c2f42c66be6c0786f707\
    595a55ebe7543552bddd33b855815982dc1e447761f9c9e10a1ed8a6e107cd441c41b1bdc91f43c96e28\
    a334303230300603551d110429302782127365727665722e6578616d706c652e636f6d82112a2e617069\
    2e6578616d706c652e636f6d300a06082a8648ce3d0403020348003045022100e832acc0f5c868247024\
    4b7bc2aca527bff698fda2e46ef3706c9457b301a5930220670280a3648374f5049c44bb9c509a39c19d\
    f7c063e9e00a1980a3f85976c297";

const NAMELESS: &str = "\
    308201263081cda003020102020203f0300a06082a8648ce3d04030230273110300e060355040a0c0745\
    78616d706c653113301106035504030c0a4578616d706c65204341301e170d3234303130313030303030\
    305a170d3334303130313030303030305a30123110300e060355040a0c074578616d706c653059301306\
    072a8648ce3d020106082a8648ce3d03010703420004ccd1baa0d8ffb97e26311430c2f42c66be6c0786\
    f707595a55ebe7543552bddd33b855815982dc1e447761f9c9e10a1ed8a6e107cd441c41b1bdc91f43c9\
    6e28300a06082a8648ce3d04030203480030450220262de308ffc77834c4dd9d6aff7afadb7fa7079dce\
    79bda1a82f81a1aa0766cb022100b92f6d42a8813705ab8ee05b5cf77c345a5f1db59cfaccbbca071200\
    655b95c1";

const LONG_LIVED: &str = "\
    308201413081e8a003020102020203ef300a06082a8648ce3d04030230273110300e060355040a0c0745\
    78616d706c653113301106035504030c0a4578616d706c652043413020170d3234303130313030303030\
    305a180f32303630303232393132333031355a302b3110300e060355040a0c074578616d706c65311730\
    1506035504030c0e636e2e6578616d706c652e636f6d3059301306072a8648ce3d020106082a8648ce3d\
    03010703420004ccd1baa0d8ffb97e26311430c2f42c66be6c0786f707595a55ebe7543552bddd33b855\
    815982dc1e447761f9c9e10a1ed8a6e107cd441c41b1bdc91f43c96e28300a06082a8648ce3d04030203\
    48003045022100f88449e11ea76db7924ebef5a9d213ff3b46d606402dffd5ded8ad1a0a2ba738022069\
    0b578b5db8f237b83b9d2dea0315e98b681bbb2ec103815984c248f6e42bd5";

const SIG_P256: &str = "\
    3045022100b14a4eac9685ee3397f5242dfa6aff2dda48d8e074c6db68b74473985207c4ea02203bbff9\
    d97b98093e033cb46f0fa1fcf73e92294b97a6f28ff348f26825f000ee";

/// The octets that hexadecimal digits stand for.
fn octets(digits: &str) -> Vec<u8> {
    let mut out: Vec<u8> = Vec::new();
    let mut i = 0;
    while i < digits.len() {
        out.push(u8::from_str_radix(&digits[i..i + 2], 16).unwrap());
        i += 2;
    }
    out
}

/// A clock that stands at a time at which the certificates are valid.
struct Today;

impl TlsClock for Today {
    fn now() -> Option<u64> {
        Some(1_800_000_000)
    }
}

/// A clock that stands at a time at which the certificates have expired.
struct Later;

impl TlsClock for Later {
    fn now() -> Option<u64> {
        Some(3_000_000_000)
    }
}

/// A clock that does not know the time.
struct NoClock;

impl TlsClock for NoClock {
    fn now() -> Option<u64> {
        None
    }
}

fn hash() -> Vec<u8> {
    (0..32u8).collect()
}

fn message_of<'a>(entries: &[&'a [u8]]) -> ServerCertificate<'a> {
    let mut cert = ServerCertificate::with_context(&[]);
    for der in entries {
        cert.add(CertificateEntryRef::X509(der)).unwrap();
    }
    cert
}

fn p256(signature: &[u8]) -> CertificateVerifyRef<'_> {
    CertificateVerifyRef {
        signature_scheme: SignatureScheme::EcdsaSecp256r1Sha256,
        signature,
    }
}

#[test]
fn a_server_is_verified() {
    let (ca, intermediate, server) = (octets(CA), octets(INTERMEDIATE), octets(SERVER));
    let signature = octets(SIG_P256);
    let mut verifier: CertVerifier<'_, Today, 1024> =
        CertVerifier::new(Certificate::X509(ca.as_slice()));
    assert_eq!(
        verifier.set_hostname_verification("server.example.com"),
        Ok(())
    );
    let cert = message_of(&[server.as_slice(), intermediate.as_slice()]);
    assert_eq!(verifier.verify_certificate(&hash(), cert), Ok(()));
    assert_eq!(verifier.verify_signature(p256(&signature)), Ok(()));
    // The hash is used up.
    assert_eq!(verifier.try_verify_signature(p256(&signature)), None);
    let cert = message_of(&[server.as_slice(), intermediate.as_slice()]);
    assert_eq!(verifier.verify_certificate(&hash(), cert), Ok(()));
    assert_eq!(
        verifier.try_verify_signature(p256(&signature)),
        Some(Ok(()))
    );
}

#[test]
fn a_wrong_signature_uses_up_the_hash_too() {
    let (ca, server) = (octets(CA), octets(NAMELESS));
    let signature = octets(SIG_P256);
    let mut verifier: CertVerifier<'_, Today, 1024> =
        CertVerifier::new(Certificate::X509(ca.as_slice()));
    let cert = message_of(&[server.as_slice()]);
    assert_eq!(verifier.verify_certificate(&hash()[1..], cert), Ok(()));
    assert_eq!(
        verifier.try_verify_signature(p256(&signature)),
        Some(Err(TlsError::InvalidSignature))
    );
    assert_eq!(verifier.try_verify_signature(p256(&signature)), None);
}

#[test]
fn without_a_certificate_no_signature_is_checked() {
    let ca = octets(CA);
    let signature = octets(SIG_P256);
    let mut verifier: CertVerifier<'_, Today, 1024> =
        CertVerifier::new(Certificate::X509(ca.as_slice()));
    assert_eq!(verifier.try_verify_signature(p256(&signature)), None);
}

#[test]
fn a_scheme_that_the_key_is_not_for_is_not_tried() {
    let (ca, server) = (octets(CA), octets(NAMELESS));
    let signature = octets(SIG_P256);
    let mut verifier: CertVerifier<'_, Today, 1024> =
        CertVerifier::new(Certificate::X509(ca.as_slice()));
    let cert = message_of(&[server.as_slice()]);
    assert_eq!(verifier.verify_certificate(&hash(), cert), Ok(()));
    for signature_scheme in [SignatureScheme::Ed25519, SignatureScheme::RsaPssRsaeSha256] {
        assert_eq!(
            verifier.try_verify_signature(CertificateVerifyRef {
                signature_scheme,
                signature: &signature,
            }),
            None
        );
    }
    // The hash is still there.
    assert_eq!(verifier.verify_signature(p256(&signature)), Ok(()));
}

#[test]
fn a_hash_that_is_too_long_is_an_error() {
    let (ca, server) = (octets(CA), octets(NAMELESS));
    let signature = octets(SIG_P256);
    let mut verifier: CertVerifier<'_, Today, 1024> =
        CertVerifier::new(Certificate::X509(ca.as_slice()));
    let cert = message_of(&[server.as_slice()]);
    assert_eq!(verifier.verify_certificate(&[0; 49], cert), Ok(()));
    assert_eq!(
        verifier.try_verify_signature(p256(&signature)),
        Some(Err(TlsError::EncodeError))
    );
}

#[test]
fn the_host_must_match() {
    let (ca, intermediate, server) = (octets(CA), octets(INTERMEDIATE), octets(SERVER));
    let mut verifier: CertVerifier<'_, Today, 1024> =
        CertVerifier::new(Certificate::X509(ca.as_slice()));
    for (host, expected) in [
        ("server.example.com", Ok(())),
        ("SERVER.example.com", Ok(())),
        ("x.api.example.com", Ok(())),
        ("example.com", Err(TlsError::InvalidCertificate)),
        ("x.y.api.example.com", Err(TlsError::InvalidCertificate)),
    ] {
        verifier.set_hostname_verification(host).unwrap();
        let cert = message_of(&[server.as_slice(), intermediate.as_slice()]);
        assert_eq!(verifier.verify_certificate(&hash(), cert), expected);
    }
}

#[test]
fn without_a_host_only_nameless_certificates_are_accepted() {
    let (ca, nameless, named) = (octets(CA), octets(NAMELESS), octets(LONG_LIVED));
    let mut verifier: CertVerifier<'_, Today, 1024> =
        CertVerifier::new(Certificate::X509(ca.as_slice()));
    assert_eq!(
        verifier.verify_certificate(&hash(), message_of(&[named.as_slice()])),
        Err(TlsError::InvalidCertificate)
    );
    assert_eq!(
        verifier.verify_certificate(&hash(), message_of(&[nameless.as_slice()])),
        Ok(())
    );
    verifier.set_hostname_verification("cn.example.com").unwrap();
    assert_eq!(
        verifier.verify_certificate(&hash(), message_of(&[named.as_slice()])),
        Ok(())
    );
    assert_eq!(
        verifier.verify_certificate(&hash(), message_of(&[nameless.as_slice()])),
        Err(TlsError::InvalidCertificate)
    );
}

#[test]
fn a_host_name_has_at_most_sixty_four_octets() {
    let (ca, nameless) = (octets(CA), octets(NAMELESS));
    let mut verifier: CertVerifier<'_, Today, 1024> =
        CertVerifier::new(Certificate::X509(ca.as_slice()));
    assert_eq!(
        verifier.set_hostname_verification(&"a".repeat(65)),
        Err(TlsError::InsufficientSpace)
    );
    // There is still no host.
    assert_eq!(
        verifier.verify_certificate(&hash(), message_of(&[nameless.as_slice()])),
        Ok(())
    );
    assert_eq!(
        verifier.set_hostname_verification(&"a".repeat(64)),
        Ok(())
    );
}

#[test]
fn the_clock_decides_over_validity() {
    let (ca, nameless) = (octets(CA), octets(NAMELESS));
    let mut later: CertVerifier<'_, Later, 1024> =
        CertVerifier::new(Certificate::X509(ca.as_slice()));
    assert_eq!(
        later.verify_certificate(&hash(), message_of(&[nameless.as_slice()])),
        Err(TlsError::InvalidCertificate)
    );
    assert_eq!(
        later.verify_certificate_at(
            &hash(),
            &message_of(&[nameless.as_slice()]),
            Some(1_800_000_000)
        ),
        Ok(())
    );
    let mut never: CertVerifier<'_, NoClock, 1024> =
        CertVerifier::new(Certificate::X509(ca.as_slice()));
    assert_eq!(
        never.verify_certificate(&hash(), message_of(&[nameless.as_slice()])),
        Ok(())
    );
}

#[test]
fn certificates_must_fit() {
    let (ca, nameless) = (octets(CA), octets(NAMELESS));
    assert_eq!(nameless.len(), 298);
    let mut exact: CertVerifier<'_, Today, 298> =
        CertVerifier::new(Certificate::X509(ca.as_slice()));
    assert_eq!(
        exact.verify_certificate(&hash(), message_of(&[nameless.as_slice()])),
        Ok(())
    );
    let mut small: CertVerifier<'_, Today, 297> =
        CertVerifier::new(Certificate::X509(ca.as_slice()));
    assert_eq!(
        small.verify_certificate(&hash(), message_of(&[nameless.as_slice()])),
        Err(TlsError::InsufficientSpace)
    );
    // Entries that the chain does not need are kept as well.
    assert_eq!(
        exact.verify_certificate(&hash(), message_of(&[nameless.as_slice(), &[0]])),
        Err(TlsError::InsufficientSpace)
    );
}

#[test]
fn a_refused_certificate_leaves_the_accepted_one() {
    let (ca, nameless, named) = (octets(CA), octets(NAMELESS), octets(LONG_LIVED));
    let signature = octets(SIG_P256);
    let mut verifier: CertVerifier<'_, Today, 1024> =
        CertVerifier::new(Certificate::X509(ca.as_slice()));
    assert_eq!(
        verifier.verify_certificate(&hash(), message_of(&[nameless.as_slice()])),
        Ok(())
    );
    assert_eq!(
        verifier.verify_certificate(&[1], message_of(&[named.as_slice()])),
        Err(TlsError::InvalidCertificate)
    );
    assert_eq!(verifier.verify_signature(p256(&signature)), Ok(()));
}

#[test]
fn what_a_server_signs() {
    let message = certificate_verify_message(&hash()).unwrap();
    let mut expected = vec![0x20u8; 64];
    expected.extend_from_slice(b"TLS 1.3, server CertificateVerify\x00");
    expected.extend_from_slice(&hash());
    assert_eq!(message.as_slice(), expected.as_slice());
    assert_eq!(certificate_verify_message(&[0; 48]).unwrap().len(), 146);
    assert_eq!(certificate_verify_message(&[]).unwrap().len(), 98);
    assert_eq!(certificate_verify_message(&[0; 49]), Err(TlsError::EncodeError));
}

#[test]
fn hashes_are_told_apart() {
    assert!(certificate_verify_message(&[1, 2]) != certificate_verify_message(&[2, 1]));
    assert!(certificate_verify_message(&[0]) != certificate_verify_message(&[0, 0]));
}

#[test]
fn a_certificate_message_has_at_most_sixteen_entries() {
    let mut cert = ServerCertificate::with_context(&[9]);
    assert_eq!(cert.request_context, &[9]);
    for _ in 0..16 {
        assert_eq!(cert.add(CertificateEntryRef::X509(&[1])), Ok(()));
    }
    assert_eq!(
        cert.add(CertificateEntryRef::X509(&[1])),
        Err(TlsError::InsufficientSpace)
    );
    assert_eq!(cert.entries.len(), 16);
}

#[test]
fn a_copy_gives_the_entries_back() {
    let mut cert = ServerCertificate::with_context(&[9]);
    cert.add(CertificateEntryRef::X509(&[1, 2])).unwrap();
    cert.add(CertificateEntryRef::RawPublicKey(&[3])).unwrap();
    let copy: OwnedCertificate<3> = OwnedCertificate::copy_of(&cert).unwrap();
    let back = copy.as_message();
    assert_eq!(back.entries.len(), 2);
    assert!(matches!(back.entries[0], CertificateEntryRef::X509(der) if der == [1, 2]));
    assert!(matches!(back.entries[1], CertificateEntryRef::RawPublicKey(key) if key == [3]));
    assert!(back.request_context.is_empty());
    let copy: Result<OwnedCertificate<2>, TlsError> = OwnedCertificate::copy_of(&cert);
    assert!(matches!(copy, Err(TlsError::InsufficientSpace)));
}

#[test]
fn an_anchor_is_an_entry() {
    assert!(matches!(
        Certificate::X509(&[1u8][..]).as_entry(),
        CertificateEntryRef::X509(der) if der == [1]
    ));
    assert!(matches!(
        Certificate::RawPublicKey(&[1u8][..]).as_entry(),
        CertificateEntryRef::RawPublicKey(key) if key == [1]
    ));
}
