use pki::asn1::{get_certificate_tlv_bytes, read_element};
use pki::certificate::{Attribute, BitString, DecodedCertificate, Extension, TbsCertificate};
use pki::error::ParseError;
use pki::subject::{extract_common_name, extract_san_dns_names};
use pki::time::{get_cert_time, DateTime, Time};

const SERVER: &str = "\
    308201843082012aa003020102020203eb300a06082a8648ce3d04030230313110300e060355040a0c07\
    4578616d706c65311d301b06035504030c144578616d706c6520496e7465726d656469617465301e170d\
    3234303130313030303030305a170d3334303130313030303030305a302f3110300e060355040a0c0745\
    78616d706c65311b301906035504030c127365727665722e6578616d706c652e636f6d3059301306072a\
    8648ce3d020106082a8648ce3d03010703420004ccd1baa0d8ffb97e26311430c2f42c66be6c0786f707\
    595a55ebe7543552bddd33b855815982dc1e447761f9c9e10a1ed8a6e107cd441c41b1bdc91f43c96e28\
    a334303230300603551d110429302782127365727665722e6578616d706c652e636f6d82112a2e617069\
    2e6578616d706c652e636f6d300a06082a8648ce3d0403020348003045022100e832acc0f5c868247024\
    4b7bc2aca527bff698fda2e46ef3706c9457b301a5930220670280a3648374f5049c44bb9c509a39c19d\
    f7c063e9e00a1980a3f85976c297";

const LONG_LIVED: &str = "\
    308201413081e8a003020102020203ef300a06082a8648ce3d04030230273110300e060355040a0c0745\
    78616d706c653113301106035504030c0a4578616d706c652043413020170d3234303130313030303030\
    305a180f32303630303232393132333031355a302b3110300e060355040a0c074578616d706c65311730\
    1506035504030c0e636e2e6578616d706c652e636f6d3059301306072a8648ce3d020106082a8648ce3d\
    03010703420004ccd1baa0d8ffb97e26311430c2f42c66be6c0786f707595a55ebe7543552bddd33b855\
    815982dc1e447761f9c9e10a1ed8a6e107cd441c41b1bdc91f43c96e28300a06082a8648ce3d04030203\
    48003045022100f88449e11ea76db7924ebef5a9d213ff3b46d606402dffd5ded8ad1a0a2ba738022069\
    0b578b5db8f237b83b9d2dea0315e98b681bbb2ec103815984c248f6e42bd5";

const CA_RSA: &str = "\
    308202d5308201bda003020102020203f8300d06092a864886f70d01010b050030233110300e06035504\
    0a0c074578616d706c65310f300d06035504030c06525341204341301e170d3234303130313030303030\
    305a170d3334303130313030303030305a30233110300e060355040a0c074578616d706c65310f300d06\
    035504030c0652534120434130820122300d06092a864886f70d01010105000382010f003082010a0282\
    010100bde2ffb59a0159cdf359a1dddba6340ce4a3f50d4d01ffaf4142355e27cfe0783b0504da74a0b1\
    019668e8142714d4ca3535dcbd5fea301eeb4979f4f4a76aae7e3b0e8c10c90d6d5050b854405edf0451\
    7e3836c17e193d2789185a8ace62a583557ea0d86e9e64134df0ef43bedd56939c1e83c4bd6e46be3130\
    30096aa40c1f65bf34a4bc149641ad8c018220b3c0b2f307fe2bcbf63f0321b2c0e06521251d09516f84\
    f1852a9189fb584425c1b1f7b36cb4456b73dc278f3a0d198ebbb093003708626cf2d8f23477682ca798\
    7c5f3be86ad4837ee070d10cbb476cb234f65536faff2e7623fdef4c235fd42ec612867f4f5d29bbd302\
    1c4e6d7d23246d0203010001a3133011300f0603551d130101ff040530030101ff300d06092a864886f7\
    0d01010b05000382010100b0477df0750ada47063cd86b0f5192078ac8f713cfc4504e5ca3b8df7e8be0\
    3576f3d1fb8b72514695887b7aa3a33debf59c9f9374d5d0ef5c5f6cfc45cb85aab478c9a919fdc46861\
    161113600f14e951e9dbe86531dfddf0eca7f55b6813bf0f8a31702bad018176387f055fe3cb9360a755\
    9311dbdd1ffd80f9a8e6b1b0be2d4dddde5fa4dcfaeda5b69f405960d6c688ae9b46205c61030e59ee55\
    581e38e3d33e9c47095677a46afe4c99260fb808045c4bc42c9af1aa4d22ea86c36d0753536aeef83725\
    5301e479d30352363366498c840b11de85831f4629b2183cbcbbe392110c21fe540d63fc584509d9ba99\
    5e7a8ad1175f585593cb4accd5d645";

/// The octets that hexadecimal digits stand for.
fn octets(digits: &str) -> Vec<u8> {
    let mut out: Vec<u8> = Vec::new();
    let mut i = 0;
    while i < digits.len() {
        out.push(u8::from_str_radix(&digits[i..i + 2], 16).unwrap());
        i += 2;
    }
    out
}

#[test]
fn a_certificate_decodes() {
    let der = octets(SERVER);
    let decoded = DecodedCertificate::from_der(&der).unwrap();
    let period = decoded.tbs_certificate.validity;
    assert_eq!(
        period.not_before,
        Time::UtcTime(DateTime {
            year: 2024,
            month: 1,
            day: 1,
            hour: 0,
            minutes: 0,
            seconds: 0,
        })
    );
    assert_eq!(get_cert_time(&period.not_after), 2_019_686_400);
    let subject = &decoded.tbs_certificate.subject;
    assert_eq!(subject.len(), 2);
    assert_eq!(subject[0].oid, &[85, 4, 10]);
    assert_eq!(subject[0].value, b"Example");
    assert_eq!(subject[1].oid, &[85, 4, 3]);
    assert_eq!(subject[1].value, b"server.example.com");
    let key = decoded
        .tbs_certificate
        .subject_public_key_info
        .public_key
        .as_bytes()
        .unwrap();
    assert_eq!(key.len(), 65);
    assert_eq!(key[0], 4);
    assert_eq!(decoded.tbs_certificate.extensions.len(), 1);
    assert_eq!(decoded.tbs_certificate.extensions[0].oid, &[85, 29, 17]);
    assert_eq!(decoded.signature_algorithm.oid, octets("2a8648ce3d040302"));
    assert!(decoded.signature_algorithm.parameters.is_none());
    assert!(decoded.signature.as_bytes().is_some());
}

#[test]
fn a_certificate_that_decodes_has_a_signed_part() {
    for certificate in [SERVER, LONG_LIVED, CA_RSA] {
        let der = octets(certificate);
        assert!(DecodedCertificate::from_der(&der).is_ok());
        let signed = get_certificate_tlv_bytes(&der).unwrap();
        assert!(der[4..].starts_with(signed));
        assert_eq!(signed[0], 0x30);
    }
}

#[test]
fn late_times_are_generalized() {
    let der = octets(LONG_LIVED);
    let decoded = DecodedCertificate::from_der(&der).unwrap();
    assert_eq!(
        decoded.tbs_certificate.validity.not_after,
        Time::GeneralTime(DateTime {
            year: 2060,
            month: 2,
            day: 29,
            hour: 12,
            minutes: 30,
            seconds: 15,
        })
    );
}

#[test]
fn rsa_certificates_have_null_parameters() {
    let der = octets(CA_RSA);
    let decoded = DecodedCertificate::from_der(&der).unwrap();
    let (header, value) = decoded.signature_algorithm.parameters.unwrap();
    assert!(header.has_tag(0, false, 5));
    assert_eq!(value.len(), 0);
}

#[test]
fn what_is_not_exactly_a_certificate_does_not_decode() {
    let mut der = octets(SERVER);
    assert!(DecodedCertificate::from_der(&[]).is_err());
    assert!(matches!(
        DecodedCertificate::from_der(&der[..der.len() - 1]),
        Err(ParseError::InvalidData)
    ));
    der.push(0);
    assert!(matches!(
        DecodedCertificate::from_der(&der),
        Err(ParseError::InvalidData)
    ));
}

/// Replaces the only occurrence of a text in octets.
fn with(octets: &[u8], from: &[u8], to: &[u8]) -> Vec<u8> {
    let mut found: Vec<usize> = Vec::new();
    for i in 0..octets.len() {
        if octets[i..].starts_with(from) {
            found.push(i);
        }
    }
    assert_eq!(found.len(), 1);
    let mut changed = octets.to_vec();
    changed[found[0]..found[0] + to.len()].copy_from_slice(to);
    changed
}

#[test]
fn times_outside_the_calendar_do_not_decode() {
    let der = octets(LONG_LIVED);
    let leap_day = with(&der, b"240101000000Z", b"240229235959Z");
    assert!(DecodedCertificate::from_der(&leap_day).is_ok());
    for wrong in [
        b"240100000000Z",
        b"240132000000Z",
        b"230229000000Z",
        b"241301000000Z",
        b"240101240000Z",
        b"240101006000Z",
        b"240101000060Z",
        b"24010100000aZ",
        b"2401010000000",
        b"690101000000Z",
    ] {
        assert!(DecodedCertificate::from_der(&with(&der, b"240101000000Z", wrong)).is_err());
    }
    let last = with(&der, b"20600229123015Z", b"99991231235959Z");
    assert!(DecodedCertificate::from_der(&last).is_ok());
    for wrong in [b"20610229123015Z", b"19691231235959Z", b"2060022912301 Z"] {
        assert!(DecodedCertificate::from_der(&with(&der, b"20600229123015Z", wrong)).is_err());
    }
}

#[test]
fn object_identifiers_must_be_well_formed() {
    let der = octets(LONG_LIVED);
    let common_name = [6, 3, 85, 4, 3, 12, 14, 99, 110];
    let surname = with(&der, &common_name, &[6, 3, 85, 4, 4]);
    assert!(DecodedCertificate::from_der(&surname).is_ok());
    let cut = with(&der, &common_name, &[6, 3, 85, 4, 0x83]);
    assert!(DecodedCertificate::from_der(&cut).is_err());
}

#[test]
fn unused_bits_leave_no_whole_octets() {
    let bits = BitString {
        unused_bits: 1,
        raw_bytes: &[2],
    };
    assert!(bits.as_bytes().is_none());
    let bits = BitString {
        unused_bits: 0,
        raw_bytes: &[2],
    };
    assert_eq!(bits.as_bytes(), Some(&[2u8][..]));
}

fn attribute(oid: &'static [u8], value: &'static [u8]) -> Attribute<'static> {
    Attribute { oid, value }
}

fn common_name(attributes: Vec<Attribute<'static>>) -> Result<Option<String>, ParseError> {
    let der = octets(LONG_LIVED);
    let decoded = DecodedCertificate::from_der(&der).unwrap();
    let tbs = TbsCertificate {
        validity: decoded.tbs_certificate.validity,
        subject: attributes,
        subject_public_key_info: decoded.tbs_certificate.subject_public_key_info,
        extensions: Vec::new(),
    };
    let name = extract_common_name(&tbs)?;
    Ok(name.map(|n| String::from(n.as_str())))
}

#[test]
fn the_last_common_name_counts() {
    assert_eq!(common_name(vec![]), Ok(None));
    assert_eq!(common_name(vec![attribute(&[85, 4, 10], b"org")]), Ok(None));
    assert_eq!(
        common_name(vec![
            attribute(&[85, 4, 3], b"first"),
            attribute(&[85, 4, 3], b"last"),
            attribute(&[85, 4, 10], b"org"),
        ]),
        Ok(Some(String::from("last")))
    );
}

#[test]
fn a_common_name_must_be_short_text() {
    assert_eq!(
        common_name(vec![attribute(&[85, 4, 3], &[97; 64])]),
        Ok(Some("a".repeat(64)))
    );
    assert_eq!(
        common_name(vec![attribute(&[85, 4, 3], &[97; 65])]),
        Err(ParseError::InvalidData)
    );
    assert_eq!(
        common_name(vec![attribute(&[85, 4, 3], &[0xff])]),
        Err(ParseError::InvalidData)
    );
    assert_eq!(
        common_name(vec![
            attribute(&[85, 4, 3], &[0xff]),
            attribute(&[85, 4, 3], b"last"),
        ]),
        Ok(Some(String::from("last")))
    );
}

fn dns_names(values: &[&'static [u8]]) -> Result<Vec<String>, ParseError> {
    let der = octets(LONG_LIVED);
    let decoded = DecodedCertificate::from_der(&der).unwrap();
    let mut extensions: Vec<Extension<'static>> = Vec::new();
    for value in values {
        extensions.push(Extension {
            oid: &[85, 29, 17],
            value,
        });
    }
    extensions.push(Extension {
        oid: &[85, 29, 15],
        value: b"not looked at",
    });
    let tbs = TbsCertificate {
        validity: decoded.tbs_certificate.validity,
        subject: Vec::new(),
        subject_public_key_info: decoded.tbs_certificate.subject_public_key_info,
        extensions,
    };
    let names = extract_san_dns_names(&tbs)?;
    Ok(names.iter().map(|n| String::from(n.as_str())).collect())
}

#[test]
fn dns_names_are_picked_out_in_order() {
    assert_eq!(dns_names(&[]), Ok(vec![]));
    assert_eq!(dns_names(&[&[0x30, 0]]), Ok(vec![]));
    assert_eq!(
        dns_names(&[&[
            0x30, 12, 0x82, 1, 97, 0x87, 4, 127, 0, 0, 1, 0x82, 1, 98
        ]]),
        Ok(vec![String::from("a"), String::from("b")])
    );
    assert_eq!(
        dns_names(&[&[0x30, 3, 0x82, 1, 97], &[0x30, 3, 0x82, 1, 98]]),
        Ok(vec![String::from("a"), String::from("b")])
    );
}

#[test]
fn alternative_names_must_decode() {
    assert_eq!(dns_names(&[&[]]), Err(ParseError::InvalidData));
    assert_eq!(dns_names(&[&[0x30, 0, 0]]), Err(ParseError::InvalidData));
    assert_eq!(
        dns_names(&[&[0x31, 3, 0x82, 1, 97]]),
        Err(ParseError::InvalidData)
    );
    assert_eq!(
        dns_names(&[&[0x30, 3, 0x82, 2, 97]]),
        Err(ParseError::InvalidData)
    );
    assert_eq!(
        dns_names(&[&[0x30, 3, 0x82, 1, 0xff]]),
        Err(ParseError::InvalidData)
    );
}

/// The encoding of a value with a tag, of fewer than 65536 octets.
fn value(tag: u8, parts: &[&[u8]]) -> Vec<u8> {
    let contents = parts.concat();
    let mut encoded = vec![tag];
    if contents.len() < 128 {
        encoded.push(contents.len() as u8);
    } else if contents.len() < 256 {
        encoded.extend_from_slice(&[0x81, contents.len() as u8]);
    } else {
        encoded.extend_from_slice(&[0x82, (contents.len() / 256) as u8]);
        encoded.push((contents.len() % 256) as u8);
    }
    encoded.extend_from_slice(&contents);
    encoded
}

/// A certificate whose subject has one attribute, of the type `oid`.
fn certificate_with(oid: &[u8]) -> Vec<u8> {
    let algorithm = value(0x30, &[&value(0x06, &[&[42, 3]])]);
    let date = value(0x17, &[b"240101000000Z"]);
    let attribute = value(0x30, &[&value(0x06, &[oid]), &value(0x0c, &[b"x"])]);
    let subject = value(0x30, &[&value(0x31, &[&attribute])]);
    let bits = value(0x03, &[&[0, 1]]);
    let tbs = value(
        0x30,
        &[
            &value(0x02, &[&[1]]),
            &algorithm,
            &value(0x30, &[]),
            &value(0x30, &[&date, &date]),
            &subject,
            &value(0x30, &[&algorithm, &bits]),
        ],
    );
    value(0x30, &[&tbs, &algorithm, &bits])
}

/// Whether octets are an object identifier, worked out number by number.
fn identifier_by_hand(oid: &[u8]) -> bool {
    if oid.is_empty() || oid.len() > 39 || oid[0] >= 120 {
        return false;
    }
    let mut size = 0;
    for octet in &oid[1..] {
        size += 1;
        if size > 5 && *octet >= 16 {
            return false;
        }
        if *octet < 128 {
            size = 0;
        }
    }
    size == 0
}

fn decodes_with(oid: &[u8]) -> bool {
    let decodes = DecodedCertificate::from_der(&certificate_with(oid)).is_ok();
    assert_eq!(decodes, identifier_by_hand(oid));
    decodes
}

#[test]
fn object_identifiers_are_numbers_to_the_base_128() {
    assert!(decodes_with(&[119]));
    assert!(!decodes_with(&[120]));
    assert!(!decodes_with(&[]));
    assert!(decodes_with(&[85, 4, 3]));
    assert!(!decodes_with(&[85, 4, 128]));
    assert!(decodes_with(&[0; 39]));
    assert!(!decodes_with(&[0; 40]));
    assert!(decodes_with(&[42, 255, 255, 255, 255, 127]));
    assert!(decodes_with(&[42, 255, 255, 255, 255, 255, 15]));
    assert!(!decodes_with(&[42, 255, 255, 255, 255, 255, 16]));
    assert!(!decodes_with(&[42, 255, 255, 255, 255, 255, 128, 0]));
    assert!(decodes_with(&[42, 255, 255, 255, 255, 127, 255, 255, 255, 255, 255, 15, 1]));
    for first in 0..=255u8 {
        for second in [0u8, 1, 127, 128, 255] {
            decodes_with(&[first]);
            decodes_with(&[first, second]);
            decodes_with(&[first, second, 128, 128, 128, 128, 7]);
        }
    }
}

#[test]
fn the_signed_part_is_what_was_decoded() {
    let der = octets(SERVER);
    let signed = get_certificate_tlv_bytes(&der).unwrap();
    let (_, contents, rest) = read_element(signed).unwrap();
    assert!(rest.is_empty());
    let decoded = DecodedCertificate::from_der(&der).unwrap();
    let name = decoded.tbs_certificate.subject[1].value;
    assert!(contents.windows(name.len()).any(|part| part == name));
}

#[test]
fn no_octets_follow_a_certificate() {
    for tail in [&[0u8][..], &[5, 0], &[0x30, 0x80]] {
        let mut der = octets(SERVER);
        der.extend_from_slice(tail);
        assert!(DecodedCertificate::from_der(&der).is_err());
    }
}
