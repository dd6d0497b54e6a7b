//! Reading DER, the distinguished encoding of ASN.1 values.
//!
//! A DER value is a header, which gives the value's tag and length, and the octets
//! of the value. The `der` crate decodes headers; the rest is read here.
use crate::error::ParseError;
use vstd::prelude::*;

verus! {

/// The class of the tags that ASN.1 itself defines.
pub const UNIVERSAL: u8 = 0;

/// The class of the tags that a surrounding type defines.
pub const CONTEXT_SPECIFIC: u8 = 128;

/// The tag number of `BOOLEAN`.
pub const BOOLEAN: u32 = 1;

/// The tag number of `INTEGER`.
pub const INTEGER: u32 = 2;

/// The tag number of `BIT STRING`.
pub const BIT_STRING: u32 = 3;

/// The tag number of `OCTET STRING`.
pub const OCTET_STRING: u32 = 4;

/// The tag number of `NULL`.
pub const NULL: u32 = 5;

/// The tag number of `OBJECT IDENTIFIER`.
pub const OBJECT_IDENTIFIER: u32 = 6;

/// The tag number of `SEQUENCE` and `SEQUENCE OF`.
pub const SEQUENCE: u32 = 16;

/// The tag number of `SET` and `SET OF`.
pub const SET: u32 = 17;

/// The tag number of `UTCTime`.
pub const UTC_TIME: u32 = 23;

/// The tag number of `GeneralizedTime`.
pub const GENERALIZED_TIME: u32 = 24;

/// The header of a DER value.
#[derive(Debug, Clone, Copy, PartialEq, Eq, Structural)]
pub struct Header {
    /// The class of the tag, in the two high bits.
    pub class: u8,
    /// Whether the value is made up of other values.
    pub constructed: bool,
    /// The number of the tag.
    pub number: u32,
    /// The length of the value, in octets.
    pub length: u32,
}

impl Header {
    /// Whether the header has the given tag.
    pub open spec fn tagged(self, class: u8, constructed: bool, number: u32) -> bool {
        self.class == class && self.constructed == constructed && self.number == number
    }

    /// Whether the header has the given tag.
    pub fn has_tag(&self, class: u8, constructed: bool, number: u32) -> (has: bool)
        ensures
            has == self.tagged(class, constructed, number),
            has == (self.class == class && self.constructed == constructed && self.number
                == number),
    {
        self.class == class && self.constructed == constructed && self.number == number
    }
}

/// The number whose digits to the base `base` are in octets, the highest first. Of an
/// octet, the remainder by the base is the digit.
pub open spec fn number_of(octets: Seq<u8>, base: int) -> int
    decreases octets.len(),
{
    if octets.len() == 0 {
        0
    } else {
        number_of(octets.drop_last(), base) * base + octets.last() as int % base
    }
}

/// The first place from `i` on with an octet under 128, which ends a number to the base
/// 128.
pub open spec fn number_end(octets: Seq<u8>, i: int) -> Option<int>
    decreases octets.len() - i,
{
    if i >= octets.len() {
        None
    } else if octets[i] < 128 {
        Some(i)
    } else {
        number_end(octets, i + 1)
    }
}

/// Whether an octet is the tag of a type that ASN.1 itself defines. `SEQUENCE` and `SET`
/// are constructed, and the other types are not.
pub open spec fn is_universal_tag(octet: u8) -> bool {
    ||| 1 <= octet <= 6
    ||| 9 <= octet <= 10
    ||| 12 <= octet <= 13
    ||| 18 <= octet <= 24
    ||| 26 <= octet <= 27
    ||| octet == 30
    ||| 48 <= octet <= 49
}

/// The tag number that `input` starts with, and how many octets the tag has. Numbers
/// under 31 stand in the low five bits of the first octet. Higher ones follow it, to the
/// base 128 and without leading zeros, in at most five octets; the tags of ASN.1 itself
/// have none.
pub open spec fn tag_number(input: Seq<u8>) -> Option<(int, int)> {
    if input.len() == 0 {
        None
    } else if input[0] % 32 != 31 {
        if is_universal_tag(input[0]) || input[0] >= 64 {
            Some((input[0] as int % 32, 1))
        } else {
            None
        }
    } else {
        match number_end(input, 1) {
            Some(end) => {
                let number = number_of(input.subrange(1, end + 1), 128);
                if input[0] >= 64 && 1 <= end <= 5 && input[1] != 128 && 31 <= number <= u32::MAX {
                    Some((number, end + 1))
                } else {
                    None
                }
            },
            None => None,
        }
    }
}

/// The length that stands in `input` from `i` on, and where it ends. Lengths under 128
/// take one octet. Of others the first octet is 128 and the number of the octets that
/// follow, one to four, which give the length to the base 256 without leading zeros.
pub open spec fn length_at(input: Seq<u8>, i: int) -> Option<(int, int)> {
    if i >= input.len() {
        None
    } else if input[i] < 128 {
        Some((input[i] as int, i + 1))
    } else {
        let end = i + 1 + (input[i] - 128);
        let length = number_of(input.subrange(i + 1, end), 256);
        if i + 1 < end <= i + 5 && end <= input.len() && input[i + 1] != 0 && length >= 128 {
            Some((length, end))
        } else {
            None
        }
    }
}

/// The header that `input` starts with, and the octets after it; nothing where it
/// starts with no DER header. The first octet has the class of the tag in its two high
/// bits, and in the next one whether the value is constructed. An input with more octets
/// than a length can give is not read.
pub open spec fn der_header(input: Seq<u8>) -> Option<(Header, Seq<u8>)> {
    if input.len() > u32::MAX {
        None
    } else {
        match tag_number(input) {
            Some((number, tag_end)) => match length_at(input, tag_end) {
                Some((length, end)) => Some(
                    (
                        Header {
                            class: (input[0] / 64 * 64) as u8,
                            constructed: input[0] / 32 % 2 == 1,
                            number: number as u32,
                            length: length as u32,
                        },
                        input.skip(end),
                    ),
                ),
                None => None,
            },
            None => None,
        }
    }
}

/// Whether `value` is the DER encoding of an object identifier, without its header, of
/// at most 39 octets. The first octet holds the first two numbers, of which the first is
/// at most 2 and the second at most 39. Each other number is to the base 128 and ends
/// with an octet under 128, in at most five octets, or six of which the last is under 16.
pub open spec fn is_object_identifier(value: Seq<u8>) -> bool {
    &&& 1 <= value.len() <= 39
    &&& value[0] < 120
    &&& value.len() == 1 || value.last() < 128
    &&& forall|i: int|
        1 <= i && i + 5 < value.len() && #[trigger] continues(value, i) && continues(value, i + 1)
            && continues(value, i + 2) && continues(value, i + 3) && continues(value, i + 4)
            ==> value[i + 5] < 16
}

/// Whether the octet at `i` has another octet of the same number after it.
pub open spec fn continues(value: Seq<u8>, i: int) -> bool {
    value[i] >= 128
}

/// The DER value that `input` starts with, without its header, and the octets after
/// it; nothing where `input` starts with no complete DER value.
pub open spec fn element(input: Seq<u8>) -> Option<(Header, Seq<u8>, Seq<u8>)> {
    match der_header(input) {
        Some((header, rest)) => if header.length <= rest.len() {
            Some((header, rest.take(header.length as int), rest.skip(header.length as int)))
        } else {
            None
        },
        None => None,
    }
}

/// The value with the given tag that `input` starts with, without its header, and
/// the octets after it; nothing where `input` starts with no such value.
pub open spec fn field(
    input: Seq<u8>,
    class: u8,
    constructed: bool,
    number: u32,
) -> Option<(Seq<u8>, Seq<u8>)> {
    match element(input) {
        Some((header, value, rest)) => if header.tagged(class, constructed, number) {
            Some((value, rest))
        } else {
            None
        },
        None => None,
    }
}

/// The octets after the value with the given tag, where `input` starts with one, and
/// all of `input` otherwise.
pub open spec fn after_optional_field(
    input: Seq<u8>,
    class: u8,
    constructed: bool,
    number: u32,
) -> Seq<u8> {
    match field(input, class, constructed, number) {
        Some((_, rest)) => rest,
        None => input,
    }
}

/// The encoding, header included, of the DER value that `input` starts with.
pub open spec fn encoding(input: Seq<u8>) -> Option<Seq<u8>> {
    match der_header(input) {
        Some((header, rest)) => if header.length <= rest.len() {
            Some(input.take(input.len() - rest.len() + header.length))
        } else {
            None
        },
        None => None,
    }
}

/// `der::Header`, decoded with `der::Decode::from_der_partial`: the header that the
/// input starts with, and the octets that follow it; nothing where the input starts with
/// no header.
#[verifier::external_body]
pub(crate) fn decode_header(input: &[u8]) -> (decoded: Option<(Header, &[u8])>)
    ensures
        decoded is Some <==> der_header(input@) is Some,
        decoded matches Some((header, rest)) ==> der_header(input@) == Some((header, rest@)),
{
    let (header, rest) = <der::Header as der::Decode>::from_der_partial(input).ok()?;
    let decoded = Header {
        class: header.tag().class().bits(),
        constructed: header.is_constructed(),
        number: header.tag().number().value(),
        length: header.length().into(),
    };
    Some((decoded, rest))
}

/// `der::Reader::tlv_bytes`, on a new `der::SliceReader`: the encoding of the value
/// that the input starts with, where the header decodes and the input holds the
/// whole value.
#[verifier::external_body]
pub(crate) fn tlv_bytes(input: &[u8]) -> (bytes: Option<&[u8]>)
    ensures
        bytes is Some <==> encoding(input@) is Some,
        bytes matches Some(b) ==> encoding(input@) == Some(b@),
{
    let mut reader = der::SliceReader::new(input).ok()?;
    der::Reader::tlv_bytes(&mut reader).ok()
}

/// `der::asn1::ObjectIdentifier::from_bytes`: whether the octets are an object
/// identifier that the crate can hold.
#[verifier::external_body]
pub(crate) fn decodes_as_object_identifier(value: &[u8]) -> (decodes: bool)
    ensures
        decodes == is_object_identifier(value@),
{
    der::asn1::ObjectIdentifier::from_bytes(value).is_ok()
}

/// Reads the DER value that `input` starts with: its header, its octets, and the
/// octets after it.
pub fn read_element(input: &[u8]) -> (read: Option<(Header, &[u8], &[u8])>)
    ensures
        read is Some <==> element(input@) is Some,
        read matches Some((header, value, rest)) ==> {
            &&& element(input@) == Some((header, value@, rest@))
            &&& rest@.len() < input@.len()
        },
{
    let (header, rest) = match decode_header(input) {
        Some(decoded) => decoded,
        None => {
            return None;
        },
    };
    let length: usize = header.length as usize;
    if length > rest.len() {
        return None;
    }
    let value: &[u8] = vstd::slice::slice_subrange(rest, 0, length);
    let after: &[u8] = vstd::slice::slice_subrange(rest, length, rest.len());
    assert(value@ =~= rest@.take(length as int));
    assert(after@ =~= rest@.skip(length as int));
    Some((header, value, after))
}

/// Reads the value with the given tag that `input` starts with: its octets, and the
/// octets after it.
pub fn read_field(input: &[u8], class: u8, constructed: bool, number: u32) -> (read: Option<
    (&[u8], &[u8]),
>)
    ensures
        read is Some <==> field(input@, class, constructed, number) is Some,
        read matches Some((value, rest)) ==> {
            &&& field(input@, class, constructed, number) == Some((value@, rest@))
            &&& rest@.len() < input@.len()
        },
{
    match read_element(input) {
        Some((header, value, rest)) => if header.has_tag(class, constructed, number) {
            Some((value, rest))
        } else {
            None
        },
        None => None,
    }
}

/// Skips the value with the given tag where `input` starts with one.
pub fn skip_optional_field(input: &[u8], class: u8, constructed: bool, number: u32) -> (rest:
    &[u8])
    ensures
        rest@ == after_optional_field(input@, class, constructed, number),
{
    match read_field(input, class, constructed, number) {
        Some((_, rest)) => rest,
        None => input,
    }
}

/// Whether two octet strings are the same.
pub fn same_octets(a: &[u8], b: &[u8]) -> (same: bool)
    ensures
        same == (a@ == b@),
{
    if a.len() != b.len() {
        return false;
    }
    for i in 0..a.len()
        invariant
            a@.len() == b@.len(),
            forall|j: int| 0 <= j < i ==> a@[j] == b@[j],
    {
        if a[i] != b[i] {
            return false;
        }
    }
    assert(a@ =~= b@);
    true
}

/// The encoding of the signed part of a certificate: of the first value, a sequence,
/// in the sequence that `input` starts with.
pub open spec fn signed_part(input: Seq<u8>) -> Option<Seq<u8>> {
    match der_header(input) {
        Some((outer, rest)) => if outer.tagged(UNIVERSAL, true, SEQUENCE) {
            match der_header(rest) {
                Some((inner, _)) => if inner.tagged(UNIVERSAL, true, SEQUENCE) {
                    encoding(rest)
                } else {
                    None
                },
                None => None,
            }
        } else {
            None
        },
        None => None,
    }
}

/// The encoding of the signed part of the certificate in `input`. It is what follows the
/// outer header, as far as the inner header and the length in it say; octets behind
/// `input` do not change it.
pub fn get_certificate_tlv_bytes(input: &[u8]) -> (bytes: Result<&[u8], ParseError>)
    ensures
        bytes is Ok <==> signed_part(input@) is Some,
        bytes matches Ok(b) ==> {
            &&& signed_part(input@) == Some(b@)
            &&& 2 <= b@.len()
            &&& input@[0] == 0x30 && b@[0] == 0x30
            &&& der_header(input@) matches Some((_, rest)) && {
                let start = input@.len() - rest.len();
                &&& 2 <= start && start + b@.len() <= input@.len()
                &&& b@ == input@.subrange(start, start + b@.len())
                &&& der_header(rest) matches Some((inner, value)) && b@.len() == rest.len()
                    - value.len() + inner.length
            }
            &&& forall|tail: Seq<u8>|
                input@.len() + tail.len() <= u32::MAX ==> #[trigger] signed_part(input@ + tail)
                    == Some(b@)
        },
        bytes matches Err(e) ==> e == ParseError::InvalidData,
{
    let (top_header, rest) = match decode_header(input) {
        Some(decoded) => decoded,
        None => {
            return Err(ParseError::InvalidData);
        },
    };
    if !top_header.has_tag(UNIVERSAL, true, SEQUENCE) {
        return Err(ParseError::InvalidData);
    }
    let (header, value) = match decode_header(rest) {
        Some(decoded) => decoded,
        None => {
            return Err(ParseError::InvalidData);
        },
    };
    if !header.has_tag(UNIVERSAL, true, SEQUENCE) {
        return Err(ParseError::InvalidData);
    }
    match tlv_bytes(rest) {
        Some(bytes) => {
            proof {
                let start = input@.len() - rest@.len();
                assert(bytes@ =~= input@.subrange(start, start + bytes@.len()));
                assert forall|tail: Seq<u8>|
                    input@.len() + tail.len() <= u32::MAX implies #[trigger] signed_part(
                    input@ + tail,
                ) == Some(bytes@) by {
                    law_octets_behind_leave_the_signed_part(input@, tail);
                }
            }
            Ok(bytes)
        },
        None => Err(ParseError::InvalidData),
    }
}

proof fn lemma_number_end_with_tail(octets: Seq<u8>, tail: Seq<u8>, i: int, end: int)
    requires
        0 <= i,
        end < octets.len(),
    ensures
        number_end(octets, i) == Some(end) <==> number_end(octets + tail, i) == Some(end),
    decreases octets.len() - i,
{
    if i < octets.len() {
        assert((octets + tail)[i] == octets[i]);
        lemma_number_end_with_tail(octets, tail, i + 1, end);
    } else {
        lemma_number_end_is_ahead(octets + tail, i);
    }
}

proof fn lemma_number_end_is_ahead(octets: Seq<u8>, i: int)
    requires
        0 <= i,
    ensures
        number_end(octets, i) matches Some(end) ==> i <= end < octets.len(),
    decreases octets.len() - i,
{
    if i < octets.len() {
        lemma_number_end_is_ahead(octets, i + 1);
    }
}

proof fn lemma_tag_number_with_tail(input: Seq<u8>, tail: Seq<u8>, number: int, end: int)
    requires
        end <= input.len(),
    ensures
        tag_number(input) == Some((number, end)) <==> tag_number(input + tail) == Some(
            (number, end),
        ),
{
    if input.len() > 0 {
        assert((input + tail)[0] == input[0]);
        lemma_number_end_with_tail(input, tail, 1, end - 1);
        if 2 <= end {
            assert((input + tail)[1] == input[1]);
            assert((input + tail).subrange(1, end) =~= input.subrange(1, end));
        }
    }
}

proof fn lemma_length_with_tail(input: Seq<u8>, tail: Seq<u8>, i: int, length: int, end: int)
    requires
        0 <= i,
        end <= input.len(),
    ensures
        length_at(input, i) == Some((length, end)) <==> length_at(input + tail, i) == Some(
            (length, end),
        ),
{
    if i < input.len() {
        assert((input + tail)[i] == input[i]);
        if i + 1 < end {
            assert((input + tail)[i + 1] == input[i + 1]);
            assert((input + tail).subrange(i + 1, end) =~= input.subrange(i + 1, end));
        }
    }
}

proof fn lemma_header_with_tail(input: Seq<u8>, tail: Seq<u8>, header: Header, rest: Seq<u8>)
    requires
        input.len() + tail.len() <= u32::MAX,
        rest.len() <= input.len(),
    ensures
        der_header(input) == Some((header, rest)) <==> der_header(input + tail) == Some(
            (header, rest + tail),
        ),
{
    let all = input + tail;
    let end = input.len() - rest.len();
    lemma_number_end_is_ahead(input, 1);
    if let Some((number, tag_end)) = tag_number(input) {
        lemma_tag_number_with_tail(input, tail, number, tag_end);
        if let Some((length, length_end)) = length_at(input, tag_end) {
            lemma_length_with_tail(input, tail, tag_end, length, length_end);
            assert(all.skip(length_end) =~= input.skip(length_end) + tail);
        }
    }
    if let Some((number, tag_end)) = tag_number(all) {
        if let Some((length, length_end)) = length_at(all, tag_end) {
            if all.skip(length_end) == rest + tail {
                assert(all.skip(length_end).len() == (rest + tail).len());
                lemma_tag_number_with_tail(input, tail, number, tag_end);
                lemma_length_with_tail(input, tail, tag_end, length, end);
                assert(input.skip(end) =~= rest) by {
                    assert forall|i: int| 0 <= i < rest.len() implies input.skip(end)[i]
                        == rest[i] by {
                        assert(all.skip(end)[i] == (rest + tail)[i]);
                    }
                }
            }
        }
    }
}

/// Octets behind a DER value are left over when it is read, and change nothing else.
pub proof fn law_octets_behind_an_element_are_left(input: Seq<u8>, tail: Seq<u8>)
    requires
        element(input) is Some,
        input.len() + tail.len() <= u32::MAX,
    ensures
        element(input) matches Some((header, value, rest)) && element(input + tail) == Some(
            (header, value, rest + tail),
        ),
{
    let (header, rest) = der_header(input)->0;
    lemma_header_with_tail(input, tail, header, rest);
    let length = header.length as int;
    assert((rest + tail).take(length) =~= rest.take(length));
    assert((rest + tail).skip(length) =~= rest.skip(length) + tail);
}

/// Octets behind a certificate leave its signed part as it is.
pub proof fn law_octets_behind_leave_the_signed_part(input: Seq<u8>, tail: Seq<u8>)
    requires
        signed_part(input) is Some,
        input.len() + tail.len() <= u32::MAX,
    ensures
        signed_part(input + tail) == signed_part(input),
{
    let (outer, rest) = der_header(input)->0;
    let (inner, value) = der_header(rest)->0;
    lemma_header_with_tail(input, tail, outer, rest);
    lemma_header_with_tail(rest, tail, inner, value);
    let length = rest.len() - value.len() + inner.length;
    assert((rest + tail).take(length) =~= rest.take(length));
}

/// The encoding of a DER value is a value of its own, with the same header and contents
/// and nothing behind it.
pub proof fn law_an_encoding_is_an_element(input: Seq<u8>)
    requires
        element(input) is Some,
    ensures
        element(input) matches Some((header, value, _)) && encoding(input) matches Some(encoded)
            && element(encoded) == Some((header, value, Seq::<u8>::empty())),
{
    let (header, rest) = der_header(input)->0;
    let length = header.length as int;
    let encoded = input.take(input.len() - rest.len() + length);
    let tail = rest.skip(length);
    assert(encoded + tail =~= input);
    assert(rest.take(length) + tail =~= rest);
    lemma_header_with_tail(encoded, tail, header, rest.take(length));
    assert(rest.take(length).take(length) =~= rest.take(length));
    assert(rest.take(length).skip(length) =~= Seq::<u8>::empty());
}

/// An input starts with a DER value exactly where it starts with a header and goes on with at
/// least as many octets as the header says, which are the contents of the value.
pub proof fn law_an_element_is_a_header_and_its_contents(
    input: Seq<u8>,
    header: Header,
    value: Seq<u8>,
    rest: Seq<u8>,
)
    ensures
        element(input) == Some((header, value, rest)) <==> der_header(input) == Some(
            (header, value + rest),
        ) && value.len() == header.length,
{
    if let Some((h, r)) = der_header(input) {
        if h.length <= r.len() {
            assert(r.take(h.length as int) + r.skip(h.length as int) =~= r);
        }
        if r == value + rest && value.len() == h.length {
            assert(r.take(h.length as int) =~= value);
            assert(r.skip(h.length as int) =~= rest);
        }
    }
}

/// A value with a tag is read exactly where an input starts with a value that has the tag,
/// and an optional one is skipped exactly there.
pub proof fn law_fields_are_elements_with_a_tag(
    input: Seq<u8>,
    class: u8,
    constructed: bool,
    number: u32,
    value: Seq<u8>,
    rest: Seq<u8>,
)
    ensures
        field(input, class, constructed, number) == Some((value, rest)) <==> (element(
            input,
        ) matches Some((h, v, r)) && h.class == class && h.constructed == constructed && h.number
            == number && v == value && r == rest),
        (match element(input) {
            Some((h, _, r)) => after_optional_field(input, class, constructed, number) == (
            if h.class == class && h.constructed == constructed && h.number == number {
                r
            } else {
                input
            }),
            None => after_optional_field(input, class, constructed, number) == input,
        }),
{
}

/// The encoding of the value that an input starts with is the input without the octets
/// behind the value.
pub proof fn law_an_encoding_is_the_input_without_the_rest(input: Seq<u8>)
    ensures
        (match element(input) {
            Some((_, _, rest)) => encoding(input) matches Some(encoded) && encoded + rest == input,
            None => encoding(input) is None,
        }),
{
    if let Some((_, _, rest)) = element(input) {
        let (_, after) = der_header(input)->0;
        assert(encoding(input)->0 + rest =~= input);
    }
}

/// The signed part of a certificate is the encoding of a sequence that stands first in a
/// sequence, and there is none where there is no such sequence.
pub proof fn law_the_signed_part_stands_first(input: Seq<u8>)
    ensures
        (match der_header(input) {
            Some((outer, contents)) => if outer.class == 0 && outer.constructed && outer.number
                == 16 {
                match element(contents) {
                    Some((inner, _, rest)) => if inner.class == 0 && inner.constructed
                        && inner.number == 16 {
                        signed_part(input) matches Some(signed) && signed + rest == contents
                    } else {
                        signed_part(input) is None
                    },
                    None => signed_part(input) is None,
                }
            } else {
                signed_part(input) is None
            },
            None => signed_part(input) is None,
        }),
{
    if let Some((_, contents)) = der_header(input) {
        law_an_encoding_is_the_input_without_the_rest(contents);
    }
}

/// A tag of one octet and a length under 128 make a header of two octets.
pub proof fn law_short_headers(first: u8, length: u8, rest: Seq<u8>)
    requires
        first % 32 != 31,
        first >= 64 || seq![
            1u8, 2, 3, 4, 5, 6, 9, 10, 12, 13, 18, 19, 20, 21, 22, 23, 24, 26, 27, 30, 48, 49,
        ].contains(first),
        length < 128,
        2 + rest.len() <= u32::MAX,
    ensures
        der_header(seq![first, length] + rest) matches Some((header, after)) && header.class
            == first / 64 * 64 && header.constructed == (first / 32 % 2 == 1) && header.number
            == first % 32 && header.length == length && after == rest,
{
    let input = seq![first, length] + rest;
    assert(input.skip(2) =~= rest);
    assert(is_universal_tag(first) || first >= 64);
}

/// A tag of one octet and a length of 128 or more make a header with one to four octets for
/// the length, the highest first, behind an octet that gives their number.
pub proof fn law_long_headers(first: u8, digits: Seq<u8>, rest: Seq<u8>)
    requires
        first % 32 != 31,
        first >= 64 || seq![
            1u8, 2, 3, 4, 5, 6, 9, 10, 12, 13, 18, 19, 20, 21, 22, 23, 24, 26, 27, 30, 48, 49,
        ].contains(first),
        1 <= digits.len() <= 4,
        digits[0] != 0,
        digits.len() == 1 ==> digits[0] >= 128,
        2 + digits.len() + rest.len() <= u32::MAX,
    ensures
        ({
            let length = if digits.len() == 1 {
                digits[0] as int
            } else if digits.len() == 2 {
                256 * digits[0] + digits[1]
            } else if digits.len() == 3 {
                65536 * digits[0] + 256 * digits[1] + digits[2]
            } else {
                16777216 * digits[0] + 65536 * digits[1] + 256 * digits[2] + digits[3]
            };
            der_header(seq![first, (128 + digits.len()) as u8] + digits + rest) matches Some(
                (header, after),
            ) && header.class == first / 64 * 64 && header.constructed == (first / 32 % 2 == 1)
                && header.number == first % 32 && header.length == length && after == rest
        }),
{
    let n = digits.len() as int;
    let input = seq![first, (128 + n) as u8] + digits + rest;
    assert(input[0] == first && input[1] == 128 + n && input[2] == digits[0]);
    assert(input.subrange(2, 2 + n) =~= digits);
    assert(input.skip(2 + n) =~= rest);
    assert(is_universal_tag(first) || first >= 64);
    reveal_with_fuel(number_of, 5);
    if n >= 2 {
        assert(digits.drop_last().len() == n - 1);
        if n >= 3 {
            assert(digits.drop_last().drop_last().len() == n - 2);
            if n >= 4 {
                assert(digits.drop_last().drop_last().drop_last().len() == n - 3);
            }
        }
    }
}

/// A length is not of indefinite form, has at most four octets behind the first, and takes no
/// more octets than it needs.
pub proof fn law_other_lengths_are_not_read(input: Seq<u8>)
    requires
        input.len() >= 3,
        input[0] % 32 != 31,
        input[1] == 128 || input[1] > 132 || input[1] > 128 && input[2] == 0 || input[1] == 129
            && input[2] < 128,
    ensures
        der_header(input) is None,
{
    if input[1] == 129 {
        reveal_with_fuel(number_of, 2);
        assert(input.subrange(2, 3).drop_last() =~= Seq::<u8>::empty());
    }
}

} // verus!
