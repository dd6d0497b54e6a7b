//! The host names in a certificate's subject and extensions.
use crate::asn1;
use crate::asn1::{CONTEXT_SPECIFIC, SEQUENCE, UNIVERSAL};
use crate::bounded;
use crate::bounded::{DnsNames, HostName, HOSTNAME_MAXLEN, MAX_SAN_DNS_NAMES};
use crate::certificate;
use crate::certificate::{AttributeView, Extension, ExtensionView, TbsCertificate, TbsView};
use crate::error::ParseError;
use vstd::prelude::*;
use vstd::string::*;
use vstd::utf8::*;

verus! {

/// The object identifier of the common name, 2.5.4.3.
pub open spec fn common_name_oid() -> Seq<u8> {
    seq![85, 4, 3]
}

/// The object identifier of the subject's alternative names, 2.5.29.17.
pub open spec fn subject_alt_name_oid() -> Seq<u8> {
    seq![85, 29, 17]
}

/// Whether octets can be kept as a host name: valid UTF-8 that is not too long.
pub open spec fn is_name_text(octets: Seq<u8>) -> bool {
    octets.len() <= HOSTNAME_MAXLEN && valid_utf8(octets)
}

/// The value of the last common name among attributes.
pub open spec fn last_common_name(attributes: Seq<AttributeView>) -> Option<Seq<u8>>
    decreases attributes.len(),
{
    if attributes.len() == 0 {
        None
    } else if attributes.last().oid == common_name_oid() {
        Some(attributes.last().value)
    } else {
        last_common_name(attributes.drop_last())
    }
}

/// The common name of a certificate's subject: the last one, which must be a name
/// that can be kept.
pub open spec fn common_name(tbs: TbsView) -> Result<Option<Seq<u8>>, ParseError> {
    match last_common_name(tbs.subject) {
        Some(octets) => if is_name_text(octets) {
            Ok(Some(octets))
        } else {
            Err(ParseError::InvalidData)
        },
        None => Ok(None),
    }
}

/// The DNS names among the contents of `GeneralNames`, in order: the values with the
/// context-specific tag 2.
pub open spec fn dns_names_in(value: Seq<u8>) -> Option<Seq<Seq<u8>>>
    decreases value.len(),
{
    if value.len() == 0 {
        Some(Seq::empty())
    } else {
        match asn1::element(value) {
            Some((header, octets, rest)) => match dns_names_in(rest) {
                Some(more) => if header.tagged(CONTEXT_SPECIFIC, false, 2) {
                    Some(seq![octets] + more)
                } else {
                    Some(more)
                },
                None => None,
            },
            None => None,
        }
    }
}

/// The DNS names in an encoding of `GeneralNames`.
pub open spec fn dns_names_of(encoded: Seq<u8>) -> Option<Seq<Seq<u8>>> {
    match asn1::field(encoded, UNIVERSAL, true, SEQUENCE) {
        Some((value, end)) => if end.len() == 0 {
            dns_names_in(value)
        } else {
            None
        },
        None => None,
    }
}

/// The DNS names in the alternative names among extensions, in order.
pub open spec fn alternative_names(extensions: Seq<ExtensionView>) -> Option<Seq<Seq<u8>>>
    decreases extensions.len(),
{
    if extensions.len() == 0 {
        Some(Seq::empty())
    } else if extensions.last().oid == subject_alt_name_oid() {
        match (alternative_names(extensions.drop_last()), dns_names_of(extensions.last().value)) {
            (Some(before), Some(names)) => Some(before + names),
            _ => None,
        }
    } else {
        alternative_names(extensions.drop_last())
    }
}

/// The first names of a list, as many as are kept.
pub open spec fn kept_names(names: Seq<Seq<u8>>) -> Seq<Seq<u8>> {
    if names.len() <= MAX_SAN_DNS_NAMES {
        names
    } else {
        names.take(MAX_SAN_DNS_NAMES as int)
    }
}

/// The DNS names among the alternative names of a certificate's subject. Each must be
/// a name that can be kept; of more than `MAX_SAN_DNS_NAMES`, the first are kept.
pub open spec fn san_dns_names(tbs: TbsView) -> Result<Seq<Seq<u8>>, ParseError> {
    match alternative_names(tbs.extensions) {
        Some(names) => if forall|i: int|
            0 <= i < names.len() ==> is_name_text(#[trigger] names[i]) {
            Ok(kept_names(names))
        } else {
            Err(ParseError::InvalidData)
        },
        None => Err(ParseError::InvalidData),
    }
}

/// Whether `oid` consists of the three given octets.
fn is_oid(oid: &[u8], a: u8, b: u8, c: u8) -> (is: bool)
    ensures
        is == (oid@ == seq![a, b, c]),
{
    let is: bool = oid.len() == 3 && oid[0] == a && oid[1] == b && oid[2] == c;
    proof {
        let expected = seq![a, b, c];
        if is {
            assert(oid@ =~= expected);
        } else if oid@ == expected {
            assert(oid@[0] == expected[0] && oid@[1] == expected[1] && oid@[2] == expected[2]);
        }
    }
    is
}

/// Keeps octets as a host name, where they can be.
fn keep_name(octets: &[u8]) -> (name: Option<HostName>)
    ensures
        name is Some <==> is_name_text(octets@),
        name matches Some(n) ==> bounded::host_name_octets(n) == octets@,
{
    match bounded::utf8_text(octets) {
        Some(text) => bounded::host_name(text),
        None => None,
    }
}

/// The common name of a certificate's subject.
pub fn extract_common_name(tbs_certificate: &TbsCertificate) -> (extracted: Result<
    Option<HostName>,
    ParseError,
>)
    ensures
        extracted matches Ok(n) ==> common_name(tbs_certificate@) == Ok::<
            Option<Seq<u8>>,
            ParseError,
        >(bounded::optional_name_octets(n)),
        extracted matches Err(e) ==> common_name(tbs_certificate@) == Err::<
            Option<Seq<u8>>,
            ParseError,
        >(e),
{
    let ghost subject = certificate::attribute_views(tbs_certificate.subject@);
    let mut i: usize = tbs_certificate.subject.len();
    assert(subject.take(i as int) =~= subject);
    while i > 0
        invariant
            i <= tbs_certificate.subject@.len(),
            subject == certificate::attribute_views(tbs_certificate.subject@),
            last_common_name(subject) == last_common_name(subject.take(i as int)),
        decreases i,
    {
        i = i - 1;
        let attribute = &tbs_certificate.subject[i];
        assert(subject.take(i + 1).last() == attribute@);
        assert(subject.take(i + 1).drop_last() =~= subject.take(i as int));
        if is_oid(attribute.oid, 85, 4, 3) {
            return match keep_name(attribute.value) {
                Some(name) => Ok(Some(name)),
                None => Err(ParseError::InvalidData),
            };
        }
    }
    Ok(None)
}

/// The octets of each name in a list.
spec fn octets_of(names: Seq<&[u8]>) -> Seq<Seq<u8>> {
    names.map_values(|n: &[u8]| n@)
}

/// Reads the DNS names in an encoding of `GeneralNames` and appends them to `list`.
/// Where they do not decode, the result is `false`.
fn read_dns_names<'a>(encoded: &'a [u8], list: &mut Vec<&'a [u8]>) -> (read: bool)
    ensures
        read <==> dns_names_of(encoded@) is Some,
        dns_names_of(encoded@) matches Some(names) ==> octets_of(final(list)@) == octets_of(
            old(list)@,
        ) + names,
{
    let (value, end) = match asn1::read_field(encoded, UNIVERSAL, true, SEQUENCE) {
        Some(read) => read,
        None => {
            return false;
        },
    };
    if end.len() != 0 {
        return false;
    }
    let mut rest: &'a [u8] = value;
    let ghost mut done = Seq::<Seq<u8>>::empty();
    while rest.len() > 0
        invariant
            dns_names_of(encoded@) == dns_names_in(value@),
            octets_of(list@) =~= octets_of(old(list)@) + done,
            dns_names_in(value@) == match dns_names_in(rest@) {
                Some(more) => Some(done + more),
                None => None,
            },
        decreases rest@.len(),
    {
        let (header, octets, after) = match asn1::read_element(rest) {
            Some(read) => read,
            None => {
                return false;
            },
        };
        if header.has_tag(CONTEXT_SPECIFIC, false, 2) {
            let ghost before = octets_of(list@);
            list.push(octets);
            proof {
                assert(octets_of(list@) =~= before.push(octets@));
                if let Some(more) = dns_names_in(after@) {
                    assert(done + (seq![octets@] + more) =~= done.push(octets@) + more);
                }
                done = done.push(octets@);
            }
        }
        rest = after;
    }
    assert(done + Seq::<Seq<u8>>::empty() =~= done);
    true
}

/// Reads the DNS names in the alternative names among extensions.
fn read_alternative_names<'a>(extensions: &Vec<Extension<'a>>) -> (read: Option<Vec<&'a [u8]>>)
    ensures
        read is Some <==> alternative_names(certificate::extension_views(extensions@)) is Some,
        read matches Some(list) ==> alternative_names(certificate::extension_views(extensions@))
            == Some(octets_of(list@)),
{
    let ghost views = certificate::extension_views(extensions@);
    let mut list: Vec<&'a [u8]> = Vec::new();
    assert(octets_of(list@) =~= Seq::<Seq<u8>>::empty());
    for i in 0..extensions.len()
        invariant
            views == certificate::extension_views(extensions@),
            alternative_names(views.take(i as int)) == Some(octets_of(list@)),
    {
        let extension = &extensions[i];
        assert(views.take(i + 1).last() == extension@);
        assert(views.take(i + 1).drop_last() =~= views.take(i as int));
        if is_oid(extension.oid, 85, 29, 17) {
            if !read_dns_names(extension.value, &mut list) {
                proof {
                    lemma_undecodable_names(views, i + 1);
                }
                return None;
            }
        }
    }
    assert(views.take(views.len() as int) =~= views);
    Some(list)
}

proof fn lemma_undecodable_names(extensions: Seq<ExtensionView>, n: int)
    requires
        0 <= n <= extensions.len(),
        alternative_names(extensions.take(n)) is None,
    ensures
        alternative_names(extensions) is None,
    decreases extensions.len() - n,
{
    if n == extensions.len() {
        assert(extensions.take(n) =~= extensions);
    } else {
        assert(extensions.take(n + 1).drop_last() =~= extensions.take(n));
        lemma_undecodable_names(extensions, n + 1);
    }
}

/// The DNS names among the alternative names of a certificate's subject.
pub fn extract_san_dns_names(tbs_certificate: &TbsCertificate) -> (extracted: Result<
    DnsNames,
    ParseError,
>)
    ensures
        extracted matches Ok(n) ==> san_dns_names(tbs_certificate@) == Ok::<
            Seq<Seq<u8>>,
            ParseError,
        >(bounded::dns_name_octets(n)),
        extracted matches Err(e) ==> san_dns_names(tbs_certificate@) == Err::<
            Seq<Seq<u8>>,
            ParseError,
        >(e),
{
    let list: Vec<&[u8]> = match read_alternative_names(&tbs_certificate.extensions) {
        Some(list) => list,
        None => {
            return Err(ParseError::InvalidData);
        },
    };
    let ghost all = octets_of(list@);
    let mut names: DnsNames = bounded::no_dns_names();
    assert(kept_names(all.take(0)) =~= Seq::<Seq<u8>>::empty());
    for i in 0..list.len()
        invariant
            all == octets_of(list@),
            alternative_names(tbs_certificate@.extensions) == Some(all),
            bounded::dns_name_octets(names) == kept_names(all.take(i as int)),
            forall|j: int| 0 <= j < i ==> is_name_text(#[trigger] all[j]),
    {
        assert(all[i as int] == list@[i as int]@);
        let name: HostName = match keep_name(list[i]) {
            Some(name) => name,
            None => {
                return Err(ParseError::InvalidData);
            },
        };
        let _ = bounded::push_dns_name(&mut names, name);
        assert(all.take(i + 1) =~= all.take(i as int).push(all[i as int]));
        assert(bounded::dns_name_octets(names) =~= kept_names(all.take(i + 1)));
    }
    assert(all.take(all.len() as int) =~= all);
    Ok(names)
}

/// The common name is the last one among the attributes of the subject. It must be valid
/// UTF-8 of at most 64 octets.
pub proof fn law_the_last_common_name_counts(tbs: TbsView, i: int)
    requires
        0 <= i < tbs.subject.len(),
        tbs.subject[i].oid == seq![85u8, 4, 3],
        forall|j: int| i < j < tbs.subject.len() ==> (#[trigger] tbs.subject[j]).oid != seq![
            85u8,
            4,
            3,
        ],
    ensures
        common_name(tbs) == (if tbs.subject[i].value.len() <= 64 && valid_utf8(
            tbs.subject[i].value,
        ) {
            Ok::<Option<Seq<u8>>, ParseError>(Some(tbs.subject[i].value))
        } else {
            Err::<Option<Seq<u8>>, ParseError>(ParseError::InvalidData)
        }),
{
    lemma_last_common_name(tbs.subject, i);
}

proof fn lemma_last_common_name(attributes: Seq<AttributeView>, i: int)
    requires
        -1 <= i < attributes.len(),
        i >= 0 ==> attributes[i].oid == seq![85u8, 4, 3],
        forall|j: int| i < j < attributes.len() ==> (#[trigger] attributes[j]).oid != seq![
            85u8,
            4,
            3,
        ],
    ensures
        i >= 0 ==> last_common_name(attributes) == Some(attributes[i].value),
        i < 0 ==> last_common_name(attributes) is None,
    decreases attributes.len(),
{
    if attributes.len() > 0 {
        assert(attributes.last() == attributes[attributes.len() - 1]);
        if i < attributes.len() - 1 {
            lemma_last_common_name(attributes.drop_last(), i);
        }
    }
}

/// A subject without a common name among its attributes has none.
pub proof fn law_a_subject_can_be_without_a_common_name(tbs: TbsView)
    requires
        forall|j: int| 0 <= j < tbs.subject.len() ==> (#[trigger] tbs.subject[j]).oid != seq![
            85u8,
            4,
            3,
        ],
    ensures
        common_name(tbs) == Ok::<Option<Seq<u8>>, ParseError>(None),
{
    lemma_last_common_name(tbs.subject, -1);
}

/// The names in a list of extensions are those in its first part, then those in the rest;
/// where either does not decode, there are none. An extension of alternative names gives its
/// own names, and any other gives none.
pub proof fn law_alternative_names_add_up(
    extensions: Seq<ExtensionView>,
    more: Seq<ExtensionView>,
    one: ExtensionView,
)
    ensures
        alternative_names(extensions + more) == (match (
            alternative_names(extensions),
            alternative_names(more),
        ) {
            (Some(names), Some(others)) => Some(names + others),
            _ => None,
        }),
        alternative_names(Seq::<ExtensionView>::empty()) == Some(Seq::<Seq<u8>>::empty()),
        one.oid == seq![85u8, 29, 17] ==> alternative_names(seq![one]) == dns_names_of(one.value),
        one.oid != seq![85u8, 29, 17] ==> alternative_names(seq![one]) == Some(
            Seq::<Seq<u8>>::empty(),
        ),
    decreases more.len(),
{
    reveal_with_fuel(alternative_names, 2);
    assert(seq![one].drop_last() =~= Seq::<ExtensionView>::empty());
    if let Some(names) = dns_names_of(one.value) {
        assert(Seq::<Seq<u8>>::empty() + names =~= names);
    }
    if more.len() == 0 {
        assert(extensions + more =~= extensions);
        if let Some(names) = alternative_names(extensions) {
            assert(names + Seq::<Seq<u8>>::empty() =~= names);
        }
    } else {
        let all = extensions + more;
        assert(all.drop_last() =~= extensions + more.drop_last());
        assert(all.last() == more.last());
        law_alternative_names_add_up(extensions, more.drop_last(), one);
        if let (Some(a), Some(b), Some(c)) = (
            alternative_names(extensions),
            alternative_names(more.drop_last()),
            dns_names_of(more.last().value),
        ) {
            assert(a + (b + c) =~= (a + b) + c);
        }
    }
}

/// An encoding of `GeneralNames` is one sequence, and its DNS names are those in its
/// contents.
pub proof fn law_general_names_are_a_sequence(encoded: Seq<u8>)
    ensures
        dns_names_of(encoded) == (match asn1::element(encoded) {
            Some((h, value, rest)) => if h.class == 0 && h.constructed && h.number == 16
                && rest.len() == 0 {
                dns_names_in(value)
            } else {
                None
            },
            None => None,
        }),
{
}

/// The first value of `GeneralNames` gives its octets where it has the context-specific tag 2
/// and nothing otherwise; the others follow. Where a value does not decode, there are no
/// names.
pub proof fn law_dns_names_come_one_by_one(value: Seq<u8>)
    ensures
        dns_names_in(Seq::<u8>::empty()) == Some(Seq::<Seq<u8>>::empty()),
        value.len() > 0 ==> (match asn1::element(value) {
            Some((h, octets, rest)) => match (dns_names_in(rest), dns_names_in(value)) {
                (Some(more), Some(names)) => if h.class == 128 && !h.constructed && h.number == 2 {
                    names.len() == more.len() + 1 && names[0] == octets && names.skip(1) == more
                } else {
                    names == more
                },
                (None, None) => true,
                _ => false,
            },
            None => dns_names_in(value) is None,
        }),
{
    if value.len() > 0 {
        if let Some((_, octets, rest)) = asn1::element(value) {
            if let Some(more) = dns_names_in(rest) {
                assert((seq![octets] + more).skip(1) =~= more);
            }
        }
    }
}

/// The DNS names in two encodings, one behind the other, are those of the first and then those
/// of the second.
pub proof fn law_dns_names_add_up(value: Seq<u8>, more: Seq<u8>)
    requires
        dns_names_in(value) is Some,
        value.len() + more.len() <= u32::MAX,
    ensures
        dns_names_in(value + more) == (match dns_names_in(more) {
            Some(names) => Some(dns_names_in(value)->0 + names),
            None => None,
        }),
    decreases value.len(),
{
    if value.len() == 0 {
        assert(value + more =~= more);
        if let Some(names) = dns_names_in(more) {
            assert(Seq::<Seq<u8>>::empty() + names =~= names);
        }
    } else {
        let (header, octets, rest) = asn1::element(value)->0;
        asn1::law_octets_behind_an_element_are_left(value, more);
        law_dns_names_add_up(rest, more);
        if let Some(names) = dns_names_in(more) {
            let first = dns_names_in(rest)->0;
            assert(seq![octets] + (first + names) =~= (seq![octets] + first) + names);
        }
    }
}

/// The DNS names of a certificate are those of its alternative names, or the first 16 of
/// them, where each is valid UTF-8 of at most 64 octets. Otherwise, or where they do not
/// decode, there is an error.
pub proof fn law_names_must_be_short_text(tbs: TbsView)
    ensures
        (match alternative_names(tbs.extensions) {
            Some(names) => {
                &&& (forall|i: int|
                    0 <= i < names.len() ==> (#[trigger] names[i]).len() <= 64 && valid_utf8(
                        names[i],
                    )) ==> (san_dns_names(tbs) matches Ok(kept) && kept.len() <= 16 && (
                names.len() <= 16 ==> kept == names) && (names.len() > 16 ==> kept == names.take(
                    16,
                )))
                &&& (exists|i: int|
                    0 <= i < names.len() && ((#[trigger] names[i]).len() > 64 || !valid_utf8(
                        names[i],
                    ))) ==> san_dns_names(tbs) == Err::<Seq<Seq<u8>>, ParseError>(
                    ParseError::InvalidData,
                )
            },
            None => san_dns_names(tbs) == Err::<Seq<Seq<u8>>, ParseError>(ParseError::InvalidData),
        }),
{
    if let Some(names) = alternative_names(tbs.extensions) {
        if forall|i: int|
            0 <= i < names.len() ==> (#[trigger] names[i]).len() <= 64 && valid_utf8(names[i]) {
            assert forall|i: int| 0 <= i < names.len() implies is_name_text(
                #[trigger] names[i],
            ) by {
                assert(names[i].len() <= 64);
            }
        }
        if exists|i: int|
            0 <= i < names.len() && ((#[trigger] names[i]).len() > 64 || !valid_utf8(names[i])) {
            let i = choose|i: int|
                0 <= i < names.len() && ((#[trigger] names[i]).len() > 64 || !valid_utf8(names[i]));
            assert(!is_name_text(names[i]));
        }
    }
}

} // verus!
