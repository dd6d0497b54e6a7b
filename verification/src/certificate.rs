//! Decoding X.509 certificates.
//!
//! A certificate is decoded as far as the verification of a chain reads it: the
//! subject, the period of validity, the public key, the extensions, and the signature
//! with its algorithm. The fields between are checked for their place and their tag.
use crate::asn1;
use crate::asn1::{
    Header, BIT_STRING, BOOLEAN, CONTEXT_SPECIFIC, GENERALIZED_TIME, INTEGER,
    OBJECT_IDENTIFIER, OCTET_STRING, SEQUENCE, SET, UNIVERSAL, UTC_TIME,
};
use crate::error::ParseError;
use crate::time;
use crate::time::{DateTime, Time};
use vstd::prelude::*;

verus! {

/// A signature algorithm or key algorithm, with its parameters.
pub struct AlgorithmIdentifier<'a> {
    /// The object identifier of the algorithm, without its header.
    pub oid: &'a [u8],
    /// The header and the octets of the parameters.
    pub parameters: Option<(Header, &'a [u8])>,
}

/// A string of bits.
pub struct BitString<'a> {
    /// How many bits of the last octet are not used.
    pub unused_bits: u8,
    /// The octets.
    pub raw_bytes: &'a [u8],
}

/// An attribute of a distinguished name.
pub struct Attribute<'a> {
    /// The object identifier of the attribute's type, without its header.
    pub oid: &'a [u8],
    /// The attribute's value, without its header.
    pub value: &'a [u8],
}

/// An extension of a certificate.
pub struct Extension<'a> {
    /// The object identifier of the extension's type, without its header.
    pub oid: &'a [u8],
    /// The encoded value.
    pub value: &'a [u8],
}

/// The period in which a certificate is valid.
#[derive(Debug, Clone, Copy, PartialEq, Eq, Structural)]
pub struct Validity {
    /// The first second of the period.
    pub not_before: Time,
    /// The last second of the period.
    pub not_after: Time,
}

/// The public key of a certificate's subject.
pub struct SubjectPublicKeyInfo<'a> {
    /// The algorithm that the key is for.
    pub algorithm: AlgorithmIdentifier<'a>,
    /// The key.
    pub public_key: BitString<'a>,
}

/// The signed part of a certificate.
pub struct TbsCertificate<'a> {
    /// The period in which the certificate is valid.
    pub validity: Validity,
    /// The attributes of the subject's distinguished name.
    pub subject: Vec<Attribute<'a>>,
    /// The subject's public key.
    pub subject_public_key_info: SubjectPublicKeyInfo<'a>,
    /// The extensions.
    pub extensions: Vec<Extension<'a>>,
}

/// A certificate.
pub struct DecodedCertificate<'a> {
    /// The signed part.
    pub tbs_certificate: TbsCertificate<'a>,
    /// The algorithm of the signature.
    pub signature_algorithm: AlgorithmIdentifier<'a>,
    /// The issuer's signature.
    pub signature: BitString<'a>,
}

/// The contents of an [`AlgorithmIdentifier`].
#[verifier::ext_equal]
pub struct AlgorithmView {
    /// The object identifier of the algorithm, without its header.
    pub oid: Seq<u8>,
    /// The header and the octets of the parameters.
    pub parameters: Option<(Header, Seq<u8>)>,
}

/// The contents of a [`BitString`].
#[verifier::ext_equal]
pub struct BitStringView {
    /// How many bits of the last octet are not used.
    pub unused_bits: u8,
    /// The octets.
    pub raw_bytes: Seq<u8>,
}

/// The contents of an [`Attribute`].
#[verifier::ext_equal]
pub struct AttributeView {
    /// The object identifier of the attribute's type, without its header.
    pub oid: Seq<u8>,
    /// The attribute's value, without its header.
    pub value: Seq<u8>,
}

/// The contents of an [`Extension`].
#[verifier::ext_equal]
pub struct ExtensionView {
    /// The object identifier of the extension's type, without its header.
    pub oid: Seq<u8>,
    /// The encoded value.
    pub value: Seq<u8>,
}

/// The contents of a [`SubjectPublicKeyInfo`].
#[verifier::ext_equal]
pub struct PublicKeyView {
    /// The algorithm that the key is for.
    pub algorithm: AlgorithmView,
    /// The key.
    pub public_key: BitStringView,
}

/// The contents of a [`TbsCertificate`].
#[verifier::ext_equal]
pub struct TbsView {
    /// The period in which the certificate is valid.
    pub validity: Validity,
    /// The attributes of the subject's distinguished name.
    pub subject: Seq<AttributeView>,
    /// The subject's public key.
    pub subject_public_key_info: PublicKeyView,
    /// The extensions.
    pub extensions: Seq<ExtensionView>,
}

/// The contents of a [`DecodedCertificate`].
#[verifier::ext_equal]
pub struct CertificateView {
    /// The signed part.
    pub tbs_certificate: TbsView,
    /// The algorithm of the signature.
    pub signature_algorithm: AlgorithmView,
    /// The issuer's signature.
    pub signature: BitStringView,
}

impl<'a> View for AlgorithmIdentifier<'a> {
    type V = AlgorithmView;

    open spec fn view(&self) -> AlgorithmView {
        AlgorithmView {
            oid: self.oid@,
            parameters: match self.parameters {
                Some((header, value)) => Some((header, value@)),
                None => None,
            },
        }
    }
}

impl<'a> View for BitString<'a> {
    type V = BitStringView;

    open spec fn view(&self) -> BitStringView {
        BitStringView { unused_bits: self.unused_bits, raw_bytes: self.raw_bytes@ }
    }
}

impl<'a> View for Attribute<'a> {
    type V = AttributeView;

    open spec fn view(&self) -> AttributeView {
        AttributeView { oid: self.oid@, value: self.value@ }
    }
}

impl<'a> View for Extension<'a> {
    type V = ExtensionView;

    open spec fn view(&self) -> ExtensionView {
        ExtensionView { oid: self.oid@, value: self.value@ }
    }
}

impl<'a> View for SubjectPublicKeyInfo<'a> {
    type V = PublicKeyView;

    open spec fn view(&self) -> PublicKeyView {
        PublicKeyView { algorithm: self.algorithm@, public_key: self.public_key@ }
    }
}

/// The contents of a list of attributes.
pub open spec fn attribute_views(attributes: Seq<Attribute>) -> Seq<AttributeView> {
    attributes.map_values(|a: Attribute| a@)
}

/// The contents of a list of extensions.
pub open spec fn extension_views(extensions: Seq<Extension>) -> Seq<ExtensionView> {
    extensions.map_values(|e: Extension| e@)
}

impl<'a> View for TbsCertificate<'a> {
    type V = TbsView;

    open spec fn view(&self) -> TbsView {
        TbsView {
            validity: self.validity,
            subject: attribute_views(self.subject@),
            subject_public_key_info: self.subject_public_key_info@,
            extensions: extension_views(self.extensions@),
        }
    }
}

impl<'a> View for DecodedCertificate<'a> {
    type V = CertificateView;

    open spec fn view(&self) -> CertificateView {
        CertificateView {
            tbs_certificate: self.tbs_certificate@,
            signature_algorithm: self.signature_algorithm@,
            signature: self.signature@,
        }
    }
}

impl BitStringView {
    /// The octets, where every bit of them is used.
    pub open spec fn as_bytes(self) -> Option<Seq<u8>> {
        if self.unused_bits == 0 {
            Some(self.raw_bytes)
        } else {
            None
        }
    }
}

impl Validity {
    /// Whether both bounds are times of the calendar.
    pub open spec fn valid(self) -> bool {
        self.not_before.valid() && self.not_after.valid()
    }
}

impl CertificateView {
    /// Whether the bounds of the period of validity are times of the calendar.
    pub open spec fn valid(self) -> bool {
        self.tbs_certificate.validity.valid()
    }

    /// The octets of the subject's public key, where every bit of them is used.
    pub open spec fn public_key(self) -> Option<Seq<u8>> {
        self.tbs_certificate.subject_public_key_info.public_key.as_bytes()
    }
}

/// The bits that the value of an ASN.1 `BIT STRING` stands for. Its first octet says
/// how many bits of the last one are not used.
pub open spec fn bit_string_value(value: Seq<u8>) -> Option<BitStringView> {
    if value.len() >= 1 && value[0] <= 7 && (value[0] == 0 || value.len() > 1) {
        Some(BitStringView { unused_bits: value[0], raw_bytes: value.skip(1) })
    } else {
        None
    }
}

/// The `BIT STRING` that `input` starts with, and the octets after it.
pub open spec fn bit_string(input: Seq<u8>) -> Option<(BitStringView, Seq<u8>)> {
    match asn1::field(input, UNIVERSAL, false, BIT_STRING) {
        Some((value, rest)) => match bit_string_value(value) {
            Some(bits) => Some((bits, rest)),
            None => None,
        },
        None => None,
    }
}

/// The object identifier that `input` starts with, and the octets after it.
pub open spec fn object_identifier(input: Seq<u8>) -> Option<(Seq<u8>, Seq<u8>)> {
    match asn1::field(input, UNIVERSAL, false, OBJECT_IDENTIFIER) {
        Some((oid, rest)) => if asn1::is_object_identifier(oid) {
            Some((oid, rest))
        } else {
            None
        },
        None => None,
    }
}

/// The algorithm that the contents of an `AlgorithmIdentifier` stand for: an object
/// identifier, and parameters unless nothing follows it.
pub open spec fn algorithm_value(value: Seq<u8>) -> Option<AlgorithmView> {
    match object_identifier(value) {
        Some((oid, rest)) => if rest.len() == 0 {
            Some(AlgorithmView { oid, parameters: None })
        } else {
            match asn1::element(rest) {
                Some((header, parameters, end)) => if end.len() == 0 {
                    Some(AlgorithmView { oid, parameters: Some((header, parameters)) })
                } else {
                    None
                },
                None => None,
            }
        },
        None => None,
    }
}

/// The `AlgorithmIdentifier` that `input` starts with, and the octets after it.
pub open spec fn algorithm(input: Seq<u8>) -> Option<(AlgorithmView, Seq<u8>)> {
    match asn1::field(input, UNIVERSAL, true, SEQUENCE) {
        Some((value, rest)) => match algorithm_value(value) {
            Some(view) => Some((view, rest)),
            None => None,
        },
        None => None,
    }
}

/// The `Time` that `input` starts with, and the octets after it.
pub open spec fn time_field(input: Seq<u8>) -> Option<(Time, Seq<u8>)> {
    match asn1::element(input) {
        Some((header, value, rest)) => if header.tagged(UNIVERSAL, false, UTC_TIME) {
            match time::utc_time_value(value) {
                Some(date) => Some((Time::UtcTime(date), rest)),
                None => None,
            }
        } else if header.tagged(UNIVERSAL, false, GENERALIZED_TIME) {
            match time::generalized_time_value(value) {
                Some(date) => Some((Time::GeneralTime(date), rest)),
                None => None,
            }
        } else {
            None
        },
        None => None,
    }
}

/// The period that the contents of a `Validity` stand for: two times.
pub open spec fn validity_value(value: Seq<u8>) -> Option<Validity> {
    match time_field(value) {
        Some((not_before, rest)) => match time_field(rest) {
            Some((not_after, end)) => if end.len() == 0 {
                Some(Validity { not_before, not_after })
            } else {
                None
            },
            None => None,
        },
        None => None,
    }
}

/// The `Validity` that `input` starts with, and the octets after it.
pub open spec fn validity(input: Seq<u8>) -> Option<(Validity, Seq<u8>)> {
    match asn1::field(input, UNIVERSAL, true, SEQUENCE) {
        Some((value, rest)) => match validity_value(value) {
            Some(period) => Some((period, rest)),
            None => None,
        },
        None => None,
    }
}

/// The key that the contents of a `SubjectPublicKeyInfo` stand for: an algorithm and
/// a bit string.
pub open spec fn public_key_value(value: Seq<u8>) -> Option<PublicKeyView> {
    match algorithm(value) {
        Some((algorithm, rest)) => match bit_string(rest) {
            Some((public_key, end)) => if end.len() == 0 {
                Some(PublicKeyView { algorithm, public_key })
            } else {
                None
            },
            None => None,
        },
        None => None,
    }
}

/// The `SubjectPublicKeyInfo` that `input` starts with, and the octets after it.
pub open spec fn public_key_info(input: Seq<u8>) -> Option<(PublicKeyView, Seq<u8>)> {
    match asn1::field(input, UNIVERSAL, true, SEQUENCE) {
        Some((value, rest)) => match public_key_value(value) {
            Some(key) => Some((key, rest)),
            None => None,
        },
        None => None,
    }
}

/// The attribute that the contents of an `AttributeTypeAndValue` stand for: an object
/// identifier and any value.
pub open spec fn attribute_value(value: Seq<u8>) -> Option<AttributeView> {
    match object_identifier(value) {
        Some((oid, rest)) => match asn1::element(rest) {
            Some((_, value, end)) => if end.len() == 0 {
                Some(AttributeView { oid, value })
            } else {
                None
            },
            None => None,
        },
        None => None,
    }
}

/// The attributes that the contents of a `RelativeDistinguishedName` stand for, in the
/// order of their encoding.
pub open spec fn attributes(set: Seq<u8>) -> Option<Seq<AttributeView>>
    decreases set.len(),
{
    if set.len() == 0 {
        Some(Seq::empty())
    } else {
        match asn1::field(set, UNIVERSAL, true, SEQUENCE) {
            Some((value, rest)) => match (attribute_value(value), attributes(rest)) {
                (Some(first), Some(more)) => Some(seq![first] + more),
                _ => None,
            },
            None => None,
        }
    }
}

/// The attributes that the contents of a `Name` stand for: those of each of its sets,
/// in the order of their encoding.
pub open spec fn name_value(value: Seq<u8>) -> Option<Seq<AttributeView>>
    decreases value.len(),
{
    if value.len() == 0 {
        Some(Seq::empty())
    } else {
        match asn1::field(value, UNIVERSAL, true, SET) {
            Some((set, rest)) => match (attributes(set), name_value(rest)) {
                (Some(first), Some(more)) => Some(first + more),
                _ => None,
            },
            None => None,
        }
    }
}

/// The `Name` that `input` starts with, and the octets after it.
pub open spec fn name(input: Seq<u8>) -> Option<(Seq<AttributeView>, Seq<u8>)> {
    match asn1::field(input, UNIVERSAL, true, SEQUENCE) {
        Some((value, rest)) => match name_value(value) {
            Some(attributes) => Some((attributes, rest)),
            None => None,
        },
        None => None,
    }
}

/// The extension that the contents of an `Extension` stand for: an object identifier,
/// a boolean that may be left out, and an octet string.
pub open spec fn extension_value(value: Seq<u8>) -> Option<ExtensionView> {
    match object_identifier(value) {
        Some((oid, rest)) => match asn1::field(
            asn1::after_optional_field(rest, UNIVERSAL, false, BOOLEAN),
            UNIVERSAL,
            false,
            OCTET_STRING,
        ) {
            Some((value, end)) => if end.len() == 0 {
                Some(ExtensionView { oid, value })
            } else {
                None
            },
            None => None,
        },
        None => None,
    }
}

/// The extensions that the contents of `Extensions` stand for, in order.
pub open spec fn extensions_value(value: Seq<u8>) -> Option<Seq<ExtensionView>>
    decreases value.len(),
{
    if value.len() == 0 {
        Some(Seq::empty())
    } else {
        match asn1::field(value, UNIVERSAL, true, SEQUENCE) {
            Some((first, rest)) => match (extension_value(first), extensions_value(rest)) {
                (Some(extension), Some(more)) => Some(seq![extension] + more),
                _ => None,
            },
            None => None,
        }
    }
}

/// The extensions at the end of the signed part of a certificate: none where `input`
/// is empty.
pub open spec fn trailing_extensions(input: Seq<u8>) -> Option<Seq<ExtensionView>> {
    if input.len() == 0 {
        Some(Seq::empty())
    } else {
        match asn1::field(input, CONTEXT_SPECIFIC, true, 3) {
            Some((tagged, end)) => match asn1::field(tagged, UNIVERSAL, true, SEQUENCE) {
                Some((value, tagged_end)) => if end.len() == 0 && tagged_end.len() == 0 {
                    extensions_value(value)
                } else {
                    None
                },
                None => None,
            },
            None => None,
        }
    }
}

/// The octets after the version, the serial number, the signature algorithm and the
/// issuer in the signed part of a certificate.
pub open spec fn after_issuer(value: Seq<u8>) -> Option<Seq<u8>> {
    match asn1::field(
        asn1::after_optional_field(value, CONTEXT_SPECIFIC, true, 0),
        UNIVERSAL,
        false,
        INTEGER,
    ) {
        Some((_, after_serial)) => match algorithm(after_serial) {
            Some((_, after_algorithm)) => match name(after_algorithm) {
                Some((_, rest)) => Some(rest),
                None => None,
            },
            None => None,
        },
        None => None,
    }
}

/// The extensions after the public key in the signed part of a certificate, where
/// unique identifiers of the issuer and the subject may come first.
pub open spec fn after_public_key(input: Seq<u8>) -> Option<Seq<ExtensionView>> {
    trailing_extensions(
        asn1::after_optional_field(
            asn1::after_optional_field(input, CONTEXT_SPECIFIC, false, 1),
            CONTEXT_SPECIFIC,
            false,
            2,
        ),
    )
}

/// The signed part of a certificate that the contents of a `TBSCertificate` stand for.
pub open spec fn tbs_value(value: Seq<u8>) -> Option<TbsView> {
    match after_issuer(value) {
        Some(a) => match validity(a) {
            Some((validity, b)) => match name(b) {
                Some((subject, c)) => match public_key_info(c) {
                    Some((subject_public_key_info, d)) => match after_public_key(d) {
                        Some(extensions) => Some(
                            TbsView { validity, subject, subject_public_key_info, extensions },
                        ),
                        None => None,
                    },
                    None => None,
                },
                None => None,
            },
            None => None,
        },
        None => None,
    }
}

/// The certificate that the contents of a `Certificate` stand for.
pub open spec fn certificate_value(value: Seq<u8>) -> Option<CertificateView> {
    match asn1::field(value, UNIVERSAL, true, SEQUENCE) {
        Some((tbs, a)) => match tbs_value(tbs) {
            Some(tbs_certificate) => match algorithm(a) {
                Some((signature_algorithm, b)) => match bit_string(b) {
                    Some((signature, end)) => if end.len() == 0 {
                        Some(
                            CertificateView { tbs_certificate, signature_algorithm, signature },
                        )
                    } else {
                        None
                    },
                    None => None,
                },
                None => None,
            },
            None => None,
        },
        None => None,
    }
}

/// The certificate that `der` is the encoding of.
#[verifier::opaque]
pub open spec fn certificate(der: Seq<u8>) -> Option<CertificateView> {
    match asn1::field(der, UNIVERSAL, true, SEQUENCE) {
        Some((value, end)) => if end.len() == 0 {
            certificate_value(value)
        } else {
            None
        },
        None => None,
    }
}

/// Reads a `BIT STRING`.
fn read_bit_string(input: &[u8]) -> (read: Option<(BitString<'_>, &[u8])>)
    ensures
        read is Some <==> bit_string(input@) is Some,
        read matches Some((bits, rest)) ==> bit_string(input@) == Some((bits@, rest@)),
{
    let (value, rest) = match asn1::read_field(input, UNIVERSAL, false, BIT_STRING) {
        Some(read) => read,
        None => {
            return None;
        },
    };
    if value.len() == 0 || value[0] > 7 || (value[0] != 0 && value.len() == 1) {
        return None;
    }
    let raw_bytes: &[u8] = vstd::slice::slice_subrange(value, 1, value.len());
    assert(raw_bytes@ =~= value@.skip(1));
    Some((BitString { unused_bits: value[0], raw_bytes }, rest))
}

/// Reads an object identifier.
fn read_object_identifier(input: &[u8]) -> (read: Option<(&[u8], &[u8])>)
    ensures
        read is Some <==> object_identifier(input@) is Some,
        read matches Some((oid, rest)) ==> object_identifier(input@) == Some((oid@, rest@)),
{
    match asn1::read_field(input, UNIVERSAL, false, OBJECT_IDENTIFIER) {
        Some((oid, rest)) => if asn1::decodes_as_object_identifier(oid) {
            Some((oid, rest))
        } else {
            None
        },
        None => None,
    }
}

/// Reads an `AlgorithmIdentifier`.
fn read_algorithm(input: &[u8]) -> (read: Option<(AlgorithmIdentifier<'_>, &[u8])>)
    ensures
        read is Some <==> algorithm(input@) is Some,
        read matches Some((a, rest)) ==> algorithm(input@) == Some((a@, rest@)),
{
    let (value, rest) = match asn1::read_field(input, UNIVERSAL, true, SEQUENCE) {
        Some(read) => read,
        None => {
            return None;
        },
    };
    let (oid, after_oid) = match read_object_identifier(value) {
        Some(read) => read,
        None => {
            return None;
        },
    };
    if after_oid.len() == 0 {
        return Some((AlgorithmIdentifier { oid, parameters: None }, rest));
    }
    match asn1::read_element(after_oid) {
        Some((header, parameters, end)) => if end.len() == 0 {
            Some((AlgorithmIdentifier { oid, parameters: Some((header, parameters)) }, rest))
        } else {
            None
        },
        None => None,
    }
}

/// Reads a `Time`.
fn read_time(input: &[u8]) -> (read: Option<(Time, &[u8])>)
    ensures
        read is Some <==> time_field(input@) is Some,
        read matches Some((t, rest)) ==> time_field(input@) == Some((t, rest@)) && t.valid(),
{
    let (header, value, rest) = match asn1::read_element(input) {
        Some(read) => read,
        None => {
            return None;
        },
    };
    if header.has_tag(UNIVERSAL, false, UTC_TIME) {
        match time::utc_time(value) {
            Some(date) => Some((Time::UtcTime(date), rest)),
            None => None,
        }
    } else if header.has_tag(UNIVERSAL, false, GENERALIZED_TIME) {
        match time::generalized_time(value) {
            Some(date) => Some((Time::GeneralTime(date), rest)),
            None => None,
        }
    } else {
        None
    }
}

/// Reads a `Validity`.
fn read_validity(input: &[u8]) -> (read: Option<(Validity, &[u8])>)
    ensures
        read is Some <==> validity(input@) is Some,
        read matches Some((v, rest)) ==> validity(input@) == Some((v, rest@)) && v.valid(),
{
    let (value, rest) = match asn1::read_field(input, UNIVERSAL, true, SEQUENCE) {
        Some(read) => read,
        None => {
            return None;
        },
    };
    let (not_before, after_first) = match read_time(value) {
        Some(read) => read,
        None => {
            return None;
        },
    };
    match read_time(after_first) {
        Some((not_after, end)) => if end.len() == 0 {
            Some((Validity { not_before, not_after }, rest))
        } else {
            None
        },
        None => None,
    }
}

/// Reads a `SubjectPublicKeyInfo`.
fn read_public_key_info(input: &[u8]) -> (read: Option<(SubjectPublicKeyInfo<'_>, &[u8])>)
    ensures
        read is Some <==> public_key_info(input@) is Some,
        read matches Some((k, rest)) ==> public_key_info(input@) == Some((k@, rest@)),
{
    let (value, rest) = match asn1::read_field(input, UNIVERSAL, true, SEQUENCE) {
        Some(read) => read,
        None => {
            return None;
        },
    };
    let (algorithm, after_algorithm) = match read_algorithm(value) {
        Some(read) => read,
        None => {
            return None;
        },
    };
    match read_bit_string(after_algorithm) {
        Some((public_key, end)) => if end.len() == 0 {
            Some((SubjectPublicKeyInfo { algorithm, public_key }, rest))
        } else {
            None
        },
        None => None,
    }
}

/// Reads the contents of an `AttributeTypeAndValue`.
fn read_attribute(value: &[u8]) -> (read: Option<Attribute<'_>>)
    ensures
        read is Some <==> attribute_value(value@) is Some,
        read matches Some(a) ==> attribute_value(value@) == Some(a@),
{
    let (oid, after_oid) = match read_object_identifier(value) {
        Some(read) => read,
        None => {
            return None;
        },
    };
    match asn1::read_element(after_oid) {
        Some((_, value, end)) => if end.len() == 0 {
            Some(Attribute { oid, value })
        } else {
            None
        },
        None => None,
    }
}

/// Reads the contents of a `RelativeDistinguishedName` and appends its attributes to
/// `list`. Where they do not decode, the result is `false`.
fn read_attributes<'a>(set: &'a [u8], list: &mut Vec<Attribute<'a>>) -> (read: bool)
    ensures
        read <==> attributes(set@) is Some,
        attributes(set@) matches Some(all) ==> attribute_views(final(list)@) == attribute_views(
            old(list)@,
        ) + all,
{
    let mut rest: &'a [u8] = set;
    let ghost mut done = Seq::<AttributeView>::empty();
    while rest.len() > 0
        invariant
            attribute_views(list@) =~= attribute_views(old(list)@) + done,
            attributes(set@) == match attributes(rest@) {
                Some(more) => Some(done + more),
                None => None,
            },
        decreases rest@.len(),
    {
        let (value, after) = match asn1::read_field(rest, UNIVERSAL, true, SEQUENCE) {
            Some(read) => read,
            None => {
                return false;
            },
        };
        let attribute: Attribute<'a> = match read_attribute(value) {
            Some(attribute) => attribute,
            None => {
                return false;
            },
        };
        proof {
            if let Some(more) = attributes(after@) {
                assert(done + (seq![attribute@] + more) =~= done.push(attribute@) + more);
            }
            done = done.push(attribute@);
        }
        let ghost before = attribute_views(list@);
        list.push(attribute);
        assert(attribute_views(list@) =~= before.push(attribute@));
        rest = after;
    }
    proof {
        assert(done + Seq::<AttributeView>::empty() =~= done);
    }
    true
}

/// Reads a `Name`.
fn read_name(input: &[u8]) -> (read: Option<(Vec<Attribute<'_>>, &[u8])>)
    ensures
        read is Some <==> name(input@) is Some,
        read matches Some((list, rest)) ==> name(input@) == Some((attribute_views(list@), rest@)),
{
    let (value, after_name) = match asn1::read_field(input, UNIVERSAL, true, SEQUENCE) {
        Some(read) => read,
        None => {
            return None;
        },
    };
    let mut list: Vec<Attribute<'_>> = Vec::new();
    let mut rest: &[u8] = value;
    assert(attribute_views(list@) =~= Seq::<AttributeView>::empty());
    while rest.len() > 0
        invariant
            asn1::field(input@, UNIVERSAL, true, SEQUENCE) == Some((value@, after_name@)),
            name_value(value@) == match name_value(rest@) {
                Some(more) => Some(attribute_views(list@) + more),
                None => None,
            },
        decreases rest@.len(),
    {
        let ghost done = attribute_views(list@);
        let (set, after) = match asn1::read_field(rest, UNIVERSAL, true, SET) {
            Some(read) => read,
            None => {
                return None;
            },
        };
        if !read_attributes(set, &mut list) {
            return None;
        }
        proof {
            if let Some(more) = name_value(after@) {
                let first = attributes(set@).unwrap();
                assert(done + (first + more) =~= (done + first) + more);
            }
        }
        rest = after;
    }
    assert(attribute_views(list@) + Seq::<AttributeView>::empty() =~= attribute_views(list@));
    Some((list, after_name))
}

/// Reads the contents of an `Extension`.
fn read_extension(value: &[u8]) -> (read: Option<Extension<'_>>)
    ensures
        read is Some <==> extension_value(value@) is Some,
        read matches Some(e) ==> extension_value(value@) == Some(e@),
{
    let (oid, after_oid) = match read_object_identifier(value) {
        Some(read) => read,
        None => {
            return None;
        },
    };
    let after_flag: &[u8] = asn1::skip_optional_field(after_oid, UNIVERSAL, false, BOOLEAN);
    match asn1::read_field(after_flag, UNIVERSAL, false, OCTET_STRING) {
        Some((value, end)) => if end.len() == 0 {
            Some(Extension { oid, value })
        } else {
            None
        },
        None => None,
    }
}

/// Reads the contents of `Extensions`.
fn read_extensions(value: &[u8]) -> (read: Option<Vec<Extension<'_>>>)
    ensures
        read is Some <==> extensions_value(value@) is Some,
        read matches Some(list) ==> extensions_value(value@) == Some(extension_views(list@)),
{
    let mut list: Vec<Extension<'_>> = Vec::new();
    let mut rest: &[u8] = value;
    assert(extension_views(list@) =~= Seq::<ExtensionView>::empty());
    while rest.len() > 0
        invariant
            extensions_value(value@) == match extensions_value(rest@) {
                Some(more) => Some(extension_views(list@) + more),
                None => None,
            },
        decreases rest@.len(),
    {
        let ghost done = extension_views(list@);
        let (first, after) = match asn1::read_field(rest, UNIVERSAL, true, SEQUENCE) {
            Some(read) => read,
            None => {
                return None;
            },
        };
        let extension: Extension<'_> = match read_extension(first) {
            Some(extension) => extension,
            None => {
                return None;
            },
        };
        list.push(extension);
        proof {
            assert(extension_views(list@) =~= done.push(extension@));
            if let Some(more) = extensions_value(after@) {
                assert(done + (seq![extension@] + more) =~= extension_views(list@) + more);
            }
        }
        rest = after;
    }
    assert(extension_views(list@) + Seq::<ExtensionView>::empty() =~= extension_views(list@));
    Some(list)
}

/// Reads the extensions at the end of the signed part of a certificate.
fn read_trailing_extensions(input: &[u8]) -> (read: Option<Vec<Extension<'_>>>)
    ensures
        read is Some <==> trailing_extensions(input@) is Some,
        read matches Some(list) ==> trailing_extensions(input@) == Some(extension_views(list@)),
{
    if input.len() == 0 {
        let list: Vec<Extension<'_>> = Vec::new();
        assert(extension_views(list@) =~= Seq::<ExtensionView>::empty());
        return Some(list);
    }
    let (tagged, end) = match asn1::read_field(input, CONTEXT_SPECIFIC, true, 3) {
        Some(read) => read,
        None => {
            return None;
        },
    };
    match asn1::read_field(tagged, UNIVERSAL, true, SEQUENCE) {
        Some((value, tagged_end)) => if end.len() == 0 && tagged_end.len() == 0 {
            read_extensions(value)
        } else {
            None
        },
        None => None,
    }
}

/// Skips the version, the serial number, the signature algorithm and the issuer.
fn skip_issuer(value: &[u8]) -> (rest: Option<&[u8]>)
    ensures
        rest is Some <==> after_issuer(value@) is Some,
        rest matches Some(r) ==> after_issuer(value@) == Some(r@),
{
    let after_version: &[u8] = asn1::skip_optional_field(value, CONTEXT_SPECIFIC, true, 0);
    let (_, after_serial) = match asn1::read_field(after_version, UNIVERSAL, false, INTEGER) {
        Some(read) => read,
        None => {
            return None;
        },
    };
    let (_, after_algorithm) = match read_algorithm(after_serial) {
        Some(read) => read,
        None => {
            return None;
        },
    };
    match read_name(after_algorithm) {
        Some((_, rest)) => Some(rest),
        None => None,
    }
}

/// Reads the contents of a `TBSCertificate`.
fn read_tbs(value: &[u8]) -> (read: Option<TbsCertificate<'_>>)
    ensures
        read is Some <==> tbs_value(value@) is Some,
        read matches Some(t) ==> tbs_value(value@) == Some(t@) && t.validity.valid(),
{
    let a: &[u8] = match skip_issuer(value) {
        Some(rest) => rest,
        None => {
            return None;
        },
    };
    let (validity, b) = match read_validity(a) {
        Some(read) => read,
        None => {
            return None;
        },
    };
    let (subject, c) = match read_name(b) {
        Some(read) => read,
        None => {
            return None;
        },
    };
    let (subject_public_key_info, d) = match read_public_key_info(c) {
        Some(read) => read,
        None => {
            return None;
        },
    };
    let after_issuer_id: &[u8] = asn1::skip_optional_field(d, CONTEXT_SPECIFIC, false, 1);
    let after_ids: &[u8] = asn1::skip_optional_field(after_issuer_id, CONTEXT_SPECIFIC, false, 2);
    match read_trailing_extensions(after_ids) {
        Some(extensions) => Some(
            TbsCertificate { validity, subject, subject_public_key_info, extensions },
        ),
        None => None,
    }
}

impl<'a> BitString<'a> {
    /// The octets, where every bit of them is used.
    pub fn as_bytes(&self) -> (bytes: Option<&'a [u8]>)
        ensures
            bytes is Some <==> self@.as_bytes() is Some,
            bytes matches Some(b) ==> self@.as_bytes() == Some(b@),
    {
        if self.unused_bits == 0 {
            Some(self.raw_bytes)
        } else {
            None
        }
    }
}

impl<'a> DecodedCertificate<'a> {
    /// Decodes a certificate.
    pub fn from_der(der: &'a [u8]) -> (decoded: Result<DecodedCertificate<'a>, ParseError>)
        ensures
            decoded is Ok <==> certificate(der@) is Some,
            decoded matches Ok(c) ==> certificate(der@) == Some(c@) && c@.valid(),
            decoded matches Err(e) ==> e == ParseError::InvalidData,
    {
        reveal(certificate);
        let (value, end) = match asn1::read_field(der, UNIVERSAL, true, SEQUENCE) {
            Some(read) => read,
            None => {
                return Err(ParseError::InvalidData);
            },
        };
        if end.len() != 0 {
            return Err(ParseError::InvalidData);
        }
        let (tbs, a) = match asn1::read_field(value, UNIVERSAL, true, SEQUENCE) {
            Some(read) => read,
            None => {
                return Err(ParseError::InvalidData);
            },
        };
        let tbs_certificate: TbsCertificate<'a> = match read_tbs(tbs) {
            Some(tbs_certificate) => tbs_certificate,
            None => {
                return Err(ParseError::InvalidData);
            },
        };
        let (signature_algorithm, b) = match read_algorithm(a) {
            Some(read) => read,
            None => {
                return Err(ParseError::InvalidData);
            },
        };
        match read_bit_string(b) {
            Some((signature, end)) => if end.len() == 0 {
                Ok(DecodedCertificate { tbs_certificate, signature_algorithm, signature })
            } else {
                Err(ParseError::InvalidData)
            },
            None => Err(ParseError::InvalidData),
        }
    }
}

/// What is signed is what was decoded: a certificate that decodes has a signed part, which
/// is the encoding of one value, and the contents of that value stand for the fields that
/// were decoded.
pub proof fn law_the_signed_part_is_what_was_decoded(der: Seq<u8>)
    requires
        certificate(der) is Some,
    ensures
        asn1::signed_part(der) matches Some(signed) && asn1::element(signed) matches Some(
            (_, value, rest),
        ) && rest.len() == 0 && tbs_value(value) == Some(certificate(der)->0.tbs_certificate),
{
    reveal(certificate);
    let (value, _) = asn1::field(der, UNIVERSAL, true, SEQUENCE)->0;
    let (_, rest) = asn1::der_header(der)->0;
    assert(value =~= rest);
    asn1::law_an_encoding_is_an_element(rest);
}

/// No octets can follow a certificate.
pub proof fn law_no_octets_follow_a_certificate(der: Seq<u8>, tail: Seq<u8>)
    requires
        certificate(der) is Some,
        tail.len() > 0,
    ensures
        certificate(der + tail) is None,
{
    reveal(certificate);
    if der.len() + tail.len() <= u32::MAX {
        asn1::law_octets_behind_an_element_are_left(der, tail);
    }
}

/// A bit string is the value with tag 3 whose first octet says how many bits of the last one
/// are not used, at most 7 and none of no octets, and whose other octets are the bits.
pub proof fn law_bit_strings(input: Seq<u8>, bits: BitStringView, rest: Seq<u8>)
    ensures
        bit_string(input) == Some((bits, rest)) <==> (asn1::element(input) matches Some((h, v, r))
            && h.class == 0 && !h.constructed && h.number == 3 && r == rest && v == seq![
            bits.unused_bits,
        ] + bits.raw_bytes && bits.unused_bits <= 7 && (bits.unused_bits == 0
            || bits.raw_bytes.len() > 0)),
{
    if let Some((_, v, _)) = asn1::element(input) {
        if v.len() > 0 {
            assert(seq![v[0]] + v.skip(1) =~= v);
        }
        if v == seq![bits.unused_bits] + bits.raw_bytes {
            assert(v.skip(1) =~= bits.raw_bytes);
        }
    }
}

/// An object identifier is the value with tag 6 whose octets are one.
pub proof fn law_object_identifiers(input: Seq<u8>, oid: Seq<u8>, rest: Seq<u8>)
    ensures
        object_identifier(input) == Some((oid, rest)) <==> (asn1::element(input) matches Some(
            (h, v, r),
        ) && h.class == 0 && !h.constructed && h.number == 6 && v == oid && r == rest
            && asn1::is_object_identifier(oid)),
{
}

/// An algorithm is a sequence of an object identifier and, unless nothing follows it, one
/// value, which is its parameters.
pub proof fn law_algorithms(input: Seq<u8>, view: AlgorithmView, rest: Seq<u8>)
    ensures
        algorithm(input) == Some((view, rest)) <==> {
            &&& asn1::element(input) matches Some((h, v, r))
            &&& h.class == 0 && h.constructed && h.number == 16 && r == rest
            &&& object_identifier(v) matches Some((oid, p))
            &&& oid == view.oid
            &&& match view.parameters {
                None => p.len() == 0,
                Some((header, value)) => p.len() > 0 && asn1::element(p) == Some(
                    (header, value, Seq::<u8>::empty()),
                ),
            }
        },
{
    if let Some((_, v, _)) = asn1::element(input) {
        if let Some((_, p)) = object_identifier(v) {
            if let Some((_, _, end)) = asn1::element(p) {
                assert(end.len() == 0 ==> end =~= Seq::<u8>::empty());
            }
        }
    }
}

/// A time is the value with tag 23 or 24 whose text is a time of that form.
pub proof fn law_times(input: Seq<u8>, date: DateTime, rest: Seq<u8>)
    ensures
        time_field(input) == Some((Time::UtcTime(date), rest)) <==> (asn1::element(
            input,
        ) matches Some((h, v, r)) && h.class == 0 && !h.constructed && h.number == 23 && r == rest
            && time::utc_time_value(v) == Some(date)),
        time_field(input) == Some((Time::GeneralTime(date), rest)) <==> (asn1::element(
            input,
        ) matches Some((h, v, r)) && h.class == 0 && !h.constructed && h.number == 24 && r == rest
            && time::generalized_time_value(v) == Some(date)),
{
}

/// A period of validity is a sequence of two times, its first second and its last.
pub proof fn law_periods(input: Seq<u8>, period: Validity, rest: Seq<u8>)
    ensures
        validity(input) == Some((period, rest)) <==> {
            &&& asn1::element(input) matches Some((h, v, r))
            &&& h.class == 0 && h.constructed && h.number == 16 && r == rest
            &&& time_field(v) matches Some((first, x))
            &&& first == period.not_before
            &&& time_field(x) matches Some((last, y))
            &&& last == period.not_after && y.len() == 0
        },
{
}

/// A public key is a sequence of an algorithm and a bit string.
pub proof fn law_public_keys(input: Seq<u8>, key: PublicKeyView, rest: Seq<u8>)
    ensures
        public_key_info(input) == Some((key, rest)) <==> {
            &&& asn1::element(input) matches Some((h, v, r))
            &&& h.class == 0 && h.constructed && h.number == 16 && r == rest
            &&& algorithm(v) matches Some((a, x))
            &&& a == key.algorithm
            &&& bit_string(x) matches Some((bits, y))
            &&& bits == key.public_key && y.len() == 0
        },
{
}

/// An attribute is an object identifier and one value.
pub proof fn law_attributes_have_a_type_and_a_value(value: Seq<u8>, view: AttributeView)
    ensures
        attribute_value(value) == Some(view) <==> {
            &&& object_identifier(value) matches Some((oid, x))
            &&& oid == view.oid
            &&& asn1::element(x) matches Some((_, v, y))
            &&& v == view.value && y.len() == 0
        },
{
}

/// An extension is an object identifier, a value with tag 1 that may be left out, and a value
/// with tag 4.
pub proof fn law_extensions_have_a_type_and_a_value(value: Seq<u8>, view: ExtensionView)
    ensures
        extension_value(value) == Some(view) <==> (object_identifier(value) matches Some((oid, x))
            && oid == view.oid && {
            let y = match asn1::element(x) {
                Some((flag, _, r)) => if flag.class == 0 && !flag.constructed && flag.number == 1 {
                    r
                } else {
                    x
                },
                None => x,
            };
            asn1::element(y) matches Some((h, v, end)) && h.class == 0 && !h.constructed && h.number
                == 4 && v == view.value && end.len() == 0
        }),
{
}

/// The attributes of a set are one for each of its values, each a sequence, in their order.
pub proof fn law_attributes_come_one_by_one(
    first: Seq<u8>,
    rest: Seq<u8>,
    header: Header,
    value: Seq<u8>,
)
    requires
        asn1::element(first) == Some((header, value, Seq::<u8>::empty())),
        first.len() + rest.len() <= u32::MAX,
    ensures
        attributes(Seq::<u8>::empty()) == Some(Seq::<AttributeView>::empty()),
        ({
            let tagged = header.class == 0 && header.constructed && header.number == 16;
            let decodes = tagged && attribute_value(value) is Some && attributes(rest) is Some;
            &&& attributes(first + rest) is Some <==> decodes
            &&& decodes ==> attributes(first + rest)->0 == seq![attribute_value(value)->0]
                + attributes(rest)->0
        }),
{
    asn1::law_octets_behind_an_element_are_left(first, rest);
    assert(Seq::<u8>::empty() + rest =~= rest);
}

/// The attributes in two encodings, one behind the other, are those of the first and then those of
/// the second. What is no value at its start is not decoded.
#[verifier::rlimit(80)]
#[verifier::spinoff_prover]
pub proof fn law_attributes_add_up(encoded: Seq<u8>, more: Seq<u8>)
    ensures
        attributes(encoded) is Some && encoded.len() + more.len() <= u32::MAX ==> attributes(
            encoded + more,
        ) == (match attributes(more) {
            Some(others) => Some(attributes(encoded)->0 + others),
            None => None,
        }),
        encoded.len() > 0 && asn1::element(encoded) is None ==> attributes(encoded) is None,
    decreases encoded.len(),
{
    if attributes(encoded) is Some && encoded.len() + more.len() <= u32::MAX {
        if encoded.len() == 0 {
            assert(encoded + more =~= more);
            if let Some(others) = attributes(more) {
                assert(Seq::<AttributeView>::empty() + others =~= others);
            }
        } else {
            let (_, value, rest) = asn1::element(encoded)->0;
            asn1::law_octets_behind_an_element_are_left(encoded, more);
            law_attributes_add_up(rest, more);
            if let Some(others) = attributes(more) {
                let first = seq![attribute_value(value)->0];
                let own = attributes(rest)->0;
                assert(first + (own + others) =~= (first + own) + others);
            }
        }
    }
}

/// The attributes of a name are those of its sets, in their order.
pub proof fn law_names_come_set_by_set(
    first: Seq<u8>,
    rest: Seq<u8>,
    header: Header,
    value: Seq<u8>,
)
    requires
        asn1::element(first) == Some((header, value, Seq::<u8>::empty())),
        first.len() + rest.len() <= u32::MAX,
    ensures
        name_value(Seq::<u8>::empty()) == Some(Seq::<AttributeView>::empty()),
        ({
            let tagged = header.class == 0 && header.constructed && header.number == 17;
            let decodes = tagged && attributes(value) is Some && name_value(rest) is Some;
            &&& name_value(first + rest) is Some <==> decodes
            &&& decodes ==> name_value(first + rest)->0 == attributes(value)->0
                + name_value(rest)->0
        }),
{
    asn1::law_octets_behind_an_element_are_left(first, rest);
    assert(Seq::<u8>::empty() + rest =~= rest);
}

/// The attributes of names in two encodings, one behind the other, are those of the first and
/// then those of the second. What is no value at its start is not decoded.
pub proof fn law_names_add_up(encoded: Seq<u8>, more: Seq<u8>)
    ensures
        name_value(encoded) is Some && encoded.len() + more.len() <= u32::MAX ==> name_value(
            encoded + more,
        ) == (match name_value(more) {
            Some(others) => Some(name_value(encoded)->0 + others),
            None => None,
        }),
        encoded.len() > 0 && asn1::element(encoded) is None ==> name_value(encoded) is None,
    decreases encoded.len(),
{
    if name_value(encoded) is Some && encoded.len() + more.len() <= u32::MAX {
        if encoded.len() == 0 {
            assert(encoded + more =~= more);
            if let Some(others) = name_value(more) {
                assert(Seq::<AttributeView>::empty() + others =~= others);
            }
        } else {
            let (_, value, rest) = asn1::element(encoded)->0;
            asn1::law_octets_behind_an_element_are_left(encoded, more);
            law_names_add_up(rest, more);
            if let Some(others) = name_value(more) {
                let first = attributes(value)->0;
                let own = name_value(rest)->0;
                assert(first + (own + others) =~= (first + own) + others);
            }
        }
    }
}

/// The extensions of a list are one for each of its values, each a sequence, in their order.
pub proof fn law_extensions_come_one_by_one(
    first: Seq<u8>,
    rest: Seq<u8>,
    header: Header,
    value: Seq<u8>,
)
    requires
        asn1::element(first) == Some((header, value, Seq::<u8>::empty())),
        first.len() + rest.len() <= u32::MAX,
    ensures
        extensions_value(Seq::<u8>::empty()) == Some(Seq::<ExtensionView>::empty()),
        ({
            let tagged = header.class == 0 && header.constructed && header.number == 16;
            let decodes = tagged && extension_value(value) is Some && extensions_value(
                rest,
            ) is Some;
            &&& extensions_value(first + rest) is Some <==> decodes
            &&& decodes ==> extensions_value(first + rest)->0 == seq![extension_value(value)->0]
                + extensions_value(rest)->0
        }),
{
    asn1::law_octets_behind_an_element_are_left(first, rest);
    assert(Seq::<u8>::empty() + rest =~= rest);
}

/// The extensions in two encodings, one behind the other, are those of the first and then those of
/// the second. What is no value at its start is not decoded.
#[verifier::rlimit(80)]
#[verifier::spinoff_prover]
pub proof fn law_extensions_add_up(encoded: Seq<u8>, more: Seq<u8>)
    ensures
        extensions_value(encoded) is Some && encoded.len() + more.len() <= u32::MAX
            ==> extensions_value(encoded + more) == (match extensions_value(more) {
            Some(others) => Some(extensions_value(encoded)->0 + others),
            None => None,
        }),
        encoded.len() > 0 && asn1::element(encoded) is None ==> extensions_value(encoded) is None,
    decreases encoded.len(),
{
    if extensions_value(encoded) is Some && encoded.len() + more.len() <= u32::MAX {
        if encoded.len() == 0 {
            assert(encoded + more =~= more);
            if let Some(others) = extensions_value(more) {
                assert(Seq::<ExtensionView>::empty() + others =~= others);
            }
        } else {
            let (_, value, rest) = asn1::element(encoded)->0;
            asn1::law_octets_behind_an_element_are_left(encoded, more);
            law_extensions_add_up(rest, more);
            if let Some(others) = extensions_value(more) {
                let first = seq![extension_value(value)->0];
                let own = extensions_value(rest)->0;
                assert(first + (own + others) =~= (first + own) + others);
            }
        }
    }
}

/// A name is a sequence.
pub proof fn law_names_are_sequences(input: Seq<u8>, list: Seq<AttributeView>, rest: Seq<u8>)
    ensures
        name(input) == Some((list, rest)) <==> (asn1::element(input) matches Some((h, v, r))
            && h.class == 0 && h.constructed && h.number == 16 && r == rest && name_value(v)
            == Some(list)),
{
}

/// At the end of the signed part there is nothing, and then there are no extensions, or a
/// value with the context-specific tag 3 that holds a sequence of extensions.
pub proof fn law_extensions_come_last(input: Seq<u8>, list: Seq<ExtensionView>)
    ensures
        input.len() == 0 ==> trailing_extensions(input) == Some(Seq::<ExtensionView>::empty()),
        input.len() > 0 ==> (trailing_extensions(input) == Some(list) <==> {
            &&& asn1::element(input) matches Some((h, tagged, end))
            &&& h.class == 128 && h.constructed && h.number == 3 && end.len() == 0
            &&& asn1::element(tagged) matches Some((s, v, tagged_end))
            &&& s.class == 0 && s.constructed && s.number == 16 && tagged_end.len() == 0
            &&& extensions_value(v) == Some(list)
        }),
{
}

proof fn lemma_empty_and_tail(tail: Seq<u8>)
    ensures
        Seq::<u8>::empty() + tail == tail,
{
    assert(Seq::<u8>::empty() + tail =~= tail);
}

/// The signed part of a certificate that is put together of its fields decodes to them. The
/// version, the unique identifiers and the extensions may be left out.
#[verifier::rlimit(80)]
#[verifier::spinoff_prover]
pub proof fn law_a_signed_part_decodes_to_its_fields(
    version: Seq<u8>,
    serial: Seq<u8>,
    signing: Seq<u8>,
    issuer: Seq<u8>,
    period: Seq<u8>,
    subject: Seq<u8>,
    key: Seq<u8>,
    issuer_id: Seq<u8>,
    subject_id: Seq<u8>,
    extensions: Seq<u8>,
    view: TbsView,
)
    requires
        version.len() + serial.len() + signing.len() + issuer.len() + period.len() + subject.len()
            + key.len() + issuer_id.len() + subject_id.len() + extensions.len() <= u32::MAX,
        version.len() == 0 || (asn1::field(version, 128, true, 0) matches Some((_, r))
            && r.len() == 0),
        (asn1::field(serial, 0, false, 2) matches Some((_, r)) && r.len() == 0),
        (algorithm(signing) matches Some((_, r)) && r.len() == 0),
        (name(issuer) matches Some((_, r)) && r.len() == 0),
        validity(period) == Some((view.validity, Seq::<u8>::empty())),
        name(subject) == Some((view.subject, Seq::<u8>::empty())),
        public_key_info(key) == Some((view.subject_public_key_info, Seq::<u8>::empty())),
        issuer_id.len() == 0 || (asn1::field(issuer_id, 128, false, 1) matches Some((_, r))
            && r.len() == 0),
        subject_id.len() == 0 || (asn1::field(subject_id, 128, false, 2) matches Some((_, r))
            && r.len() == 0),
        trailing_extensions(extensions) == Some(view.extensions),
    ensures
        tbs_value(
            version + (serial + (signing + (issuer + (period + (subject + (key + (issuer_id + (
            subject_id + extensions)))))))),
        ) == Some(view),
{
    let from_subject_id = subject_id + extensions;
    let from_issuer_id = issuer_id + from_subject_id;
    let from_key = key + from_issuer_id;
    let from_subject = subject + from_key;
    let from_period = period + from_subject;
    let from_issuer = issuer + from_period;
    let from_signing = signing + from_issuer;
    let from_serial = serial + from_signing;
    lemma_field_with_tail(serial, from_signing, 0, false, 2);
    lemma_optional_field(version, from_serial, 128, true, 0);
    lemma_field_with_tail(signing, from_issuer, 0, true, 16);
    lemma_field_with_tail(issuer, from_period, 0, true, 16);
    lemma_field_with_tail(period, from_subject, 0, true, 16);
    lemma_field_with_tail(subject, from_key, 0, true, 16);
    lemma_field_with_tail(key, from_issuer_id, 0, true, 16);
    lemma_optional_field(subject_id, extensions, 128, false, 2);
    if subject_id.len() > 0 {
        lemma_field_with_tail(subject_id, extensions, 128, false, 2);
    } else {
        assert(from_subject_id =~= extensions);
    }
    lemma_optional_field(issuer_id, from_subject_id, 128, false, 1);
}

/// A signed part that decodes is put together of fields that decode to what it decodes to, in
/// the order of the version, the serial number, the algorithm, the issuer, the period, the
/// subject, the key, the two unique identifiers and the extensions. They are the result.
pub proof fn law_a_decoded_signed_part_is_made_of_fields(value: Seq<u8>, view: TbsView) -> (fields:
    (
        Seq<u8>,
        Seq<u8>,
        Seq<u8>,
        Seq<u8>,
        Seq<u8>,
        Seq<u8>,
        Seq<u8>,
        Seq<u8>,
        Seq<u8>,
        Seq<u8>,
    ))
    requires
        tbs_value(value) == Some(view),
    ensures
        value == fields.0 + (fields.1 + (fields.2 + (fields.3 + (fields.4 + (fields.5 + (fields.6
            + (fields.7 + (fields.8 + fields.9)))))))),
        fields.0.len() == 0 || (asn1::field(fields.0, 128, true, 0) matches Some((_, r))
            && r.len() == 0),
        (asn1::field(fields.1, 0, false, 2) matches Some((_, r)) && r.len() == 0),
        (algorithm(fields.2) matches Some((_, r)) && r.len() == 0),
        (name(fields.3) matches Some((_, r)) && r.len() == 0),
        validity(fields.4) == Some((view.validity, Seq::<u8>::empty())),
        name(fields.5) == Some((view.subject, Seq::<u8>::empty())),
        public_key_info(fields.6) == Some((view.subject_public_key_info, Seq::<u8>::empty())),
        fields.7.len() == 0 || (asn1::field(fields.7, 128, false, 1) matches Some((_, r))
            && r.len() == 0),
        fields.8.len() == 0 || (asn1::field(fields.8, 128, false, 2) matches Some((_, r))
            && r.len() == 0),
        trailing_extensions(fields.9) == Some(view.extensions),
{
    let (version, a) = lemma_split_optional(value, 128, true, 0);
    let (serial, b) = lemma_split_field(a, 0, false, 2);
    let (signing, c) = lemma_split_field(b, 0, true, 16);
    let (issuer, d) = lemma_split_field(c, 0, true, 16);
    let (period, e) = lemma_split_field(d, 0, true, 16);
    let (subject, f) = lemma_split_field(e, 0, true, 16);
    let (key, g) = lemma_split_field(f, 0, true, 16);
    let (issuer_id, h) = lemma_split_optional(g, 128, false, 1);
    let (subject_id, extensions) = lemma_split_optional(h, 128, false, 2);
    (version, serial, signing, issuer, period, subject, key, issuer_id, subject_id, extensions)
}

/// A certificate that is put together of a signed part, an algorithm and a signature decodes
/// to what these decode to. `contents` are the contents of the signed part.
pub proof fn law_a_certificate_decodes_to_its_parts(
    der: Seq<u8>,
    header: Header,
    tbs: Seq<u8>,
    contents: Seq<u8>,
    signing: Seq<u8>,
    signature: Seq<u8>,
    view: CertificateView,
)
    requires
        asn1::element(der) == Some((header, tbs + (signing + signature), Seq::<u8>::empty())),
        header.class == 0 && header.constructed && header.number == 16,
        tbs.len() + signing.len() + signature.len() <= u32::MAX,
        asn1::field(tbs, 0, true, 16) == Some((contents, Seq::<u8>::empty())),
        tbs_value(contents) == Some(view.tbs_certificate),
        algorithm(signing) == Some((view.signature_algorithm, Seq::<u8>::empty())),
        bit_string(signature) == Some((view.signature, Seq::<u8>::empty())),
    ensures
        certificate(der) == Some(view),
{
    reveal(certificate);
    lemma_field_with_tail(tbs, signing + signature, 0, true, 16);
    lemma_field_with_tail(signing, signature, 0, true, 16);
}

/// A certificate that decodes is one sequence, put together of a signed part, an algorithm and
/// a signature that decode to what it decodes to. The result is the signed part, its
/// contents, the algorithm and the signature.
pub proof fn law_a_decoded_certificate_is_made_of_parts(der: Seq<u8>, view: CertificateView) -> (
    parts: (Seq<u8>, Seq<u8>, Seq<u8>, Seq<u8>))
    requires
        certificate(der) == Some(view),
    ensures
        asn1::element(der) matches Some((header, value, rest)) && header.class == 0
            && header.constructed && header.number == 16 && value == parts.0 + (parts.2 + parts.3)
            && rest.len() == 0,
        asn1::field(parts.0, 0, true, 16) == Some((parts.1, Seq::<u8>::empty())),
        tbs_value(parts.1) == Some(view.tbs_certificate),
        algorithm(parts.2) == Some((view.signature_algorithm, Seq::<u8>::empty())),
        bit_string(parts.3) == Some((view.signature, Seq::<u8>::empty())),
{
    reveal(certificate);
    let (value, _) = asn1::field(der, 0, true, 16)->0;
    let (contents, _) = asn1::field(value, 0, true, 16)->0;
    let (tbs, a) = lemma_split_field(value, 0, true, 16);
    let (signing, signature) = lemma_split_field(a, 0, true, 16);
    let (_, end) = asn1::field(signature, 0, false, 3)->0;
    assert(end =~= Seq::<u8>::empty());
    (tbs, contents, signing, signature)
}

proof fn lemma_split_field(input: Seq<u8>, class: u8, constructed: bool, number: u32) -> (parts: (
    Seq<u8>,
    Seq<u8>,
))
    requires
        asn1::field(input, class, constructed, number) is Some,
    ensures
        input == parts.0 + parts.1,
        asn1::field(input, class, constructed, number) matches Some((value, rest)) && rest
            == parts.1 && asn1::field(parts.0, class, constructed, number) == Some(
            (value, Seq::<u8>::empty()),
        ),
{
    asn1::law_an_encoding_is_an_element(input);
    asn1::law_an_encoding_is_the_input_without_the_rest(input);
    let (_, _, rest) = asn1::element(input)->0;
    (asn1::encoding(input)->0, rest)
}

proof fn lemma_split_optional(input: Seq<u8>, class: u8, constructed: bool, number: u32) -> (parts:
    (Seq<u8>, Seq<u8>))
    ensures
        input == parts.0 + parts.1,
        parts.1 == asn1::after_optional_field(input, class, constructed, number),
        parts.0.len() == 0 || (asn1::field(parts.0, class, constructed, number) matches Some((_, r))
            && r.len() == 0),
{
    if asn1::field(input, class, constructed, number) is Some {
        lemma_split_field(input, class, constructed, number)
    } else {
        lemma_empty_and_tail(input);
        (Seq::empty(), input)
    }
}

proof fn lemma_optional_field(
    part: Seq<u8>,
    tail: Seq<u8>,
    class: u8,
    constructed: bool,
    number: u32,
)
    requires
        part.len() + tail.len() <= u32::MAX,
        part.len() == 0 || (asn1::field(part, class, constructed, number) matches Some((_, r))
            && r.len() == 0),
        asn1::field(tail, class, constructed, number) is None,
    ensures
        asn1::after_optional_field(part + tail, class, constructed, number) == tail,
{
    if part.len() > 0 {
        lemma_field_with_tail(part, tail, class, constructed, number);
    } else {
        assert(part + tail =~= tail);
    }
}

proof fn lemma_field_with_tail(
    input: Seq<u8>,
    tail: Seq<u8>,
    class: u8,
    constructed: bool,
    number: u32,
)
    requires
        asn1::field(input, class, constructed, number) matches Some((_, r)) && r.len() == 0,
        input.len() + tail.len() <= u32::MAX,
    ensures
        asn1::field(input, class, constructed, number) matches Some((value, _)) && asn1::field(
            input + tail,
            class,
            constructed,
            number,
        ) == Some((value, tail)),
{
    asn1::law_octets_behind_an_element_are_left(input, tail);
    let (_, rest) = asn1::field(input, class, constructed, number)->0;
    assert(rest =~= Seq::<u8>::empty());
    lemma_empty_and_tail(tail);
}

/// The contents of a decoded certificate are its fields, and those of a list are the contents
/// of its items, in their order.
pub proof fn law_views_show_every_field(decoded: DecodedCertificate, i: int)
    ensures
        ({
            let tbs = decoded.tbs_certificate;
            let info = tbs.subject_public_key_info;
            &&& decoded@.tbs_certificate.validity == tbs.validity
            &&& decoded@.tbs_certificate.subject.len() == tbs.subject@.len()
            &&& 0 <= i < tbs.subject@.len() ==> decoded@.tbs_certificate.subject[i] == (
            AttributeView { oid: tbs.subject@[i].oid@, value: tbs.subject@[i].value@ })
            &&& decoded@.tbs_certificate.extensions.len() == tbs.extensions@.len()
            &&& 0 <= i < tbs.extensions@.len() ==> decoded@.tbs_certificate.extensions[i] == (
            ExtensionView { oid: tbs.extensions@[i].oid@, value: tbs.extensions@[i].value@ })
            &&& decoded@.tbs_certificate.subject_public_key_info.public_key == (BitStringView {
                unused_bits: info.public_key.unused_bits,
                raw_bytes: info.public_key.raw_bytes@,
            })
            &&& decoded@.signature == (BitStringView {
                unused_bits: decoded.signature.unused_bits,
                raw_bytes: decoded.signature.raw_bytes@,
            })
            &&& decoded@.signature_algorithm.oid == decoded.signature_algorithm.oid@
            &&& (match decoded.signature_algorithm.parameters {
                Some((header, value)) => decoded@.signature_algorithm.parameters == Some(
                    (header, value@),
                ),
                None => decoded@.signature_algorithm.parameters is None,
            })
        }),
{
}

} // verus!
