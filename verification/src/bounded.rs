//! Fixed-capacity strings and vectors.
//!
//! Host names, lists of host names and signed messages are kept in the
//! collections of the `heapless` crate. What such a collection holds is opaque
//! to the verifier, so this module names it and states, for each method that
//! the library calls, what the method does to it.
use vstd::prelude::*;
use vstd::string::*;
use vstd::utf8::*;

verus! {

/// The most octets that a host name can have.
pub const HOSTNAME_MAXLEN: usize = 64;

/// The most DNS names that are kept of one certificate.
pub const MAX_SAN_DNS_NAMES: usize = 16;

/// The most octets that the message under a certificate-verify signature can have.
pub const MESSAGE_MAXLEN: usize = 146;

/// `heapless::String`, a string of at most `N` octets.
#[verifier::external_type_specification]
#[verifier::external_body]
pub struct ExString<const N: usize>(heapless::String<N>);

/// `heapless::Vec`, a vector of at most `N` items.
#[verifier::external_type_specification]
#[verifier::external_body]
#[verifier::reject_recursive_types(T)]
pub struct ExVec<T, const N: usize>(heapless::Vec<T, N>);

/// A host name of a certificate, or the one that a server was reached under.
pub type HostName = heapless::String<HOSTNAME_MAXLEN>;

/// The DNS names of a certificate.
pub type DnsNames = heapless::Vec<heapless::String<HOSTNAME_MAXLEN>, MAX_SAN_DNS_NAMES>;

/// The message under a certificate-verify signature.
pub type Message = heapless::Vec<u8, MESSAGE_MAXLEN>;

/// The octets that a host name holds, in UTF-8.
pub uninterp spec fn host_name_octets(name: heapless::String<HOSTNAME_MAXLEN>) -> Seq<u8>;

/// The octets of each DNS name in a list, in the order of the list.
pub uninterp spec fn dns_name_octets(
    names: heapless::Vec<heapless::String<HOSTNAME_MAXLEN>, MAX_SAN_DNS_NAMES>,
) -> Seq<Seq<u8>>;

/// The octets of a message.
pub uninterp spec fn message_octets(message: heapless::Vec<u8, MESSAGE_MAXLEN>) -> Seq<u8>;

/// The octets of an optional host name.
pub open spec fn optional_name_octets(name: Option<HostName>) -> Option<Seq<u8>> {
    match name {
        Some(n) => Some(host_name_octets(n)),
        None => None,
    }
}

/// `core::str::from_utf8`: the octets as text where they are valid UTF-8, and
/// nothing otherwise. The text consists of exactly those octets.
#[verifier::external_body]
pub(crate) fn utf8_text(octets: &[u8]) -> (text: Option<&str>)
    ensures
        text is Some <==> valid_utf8(octets@),
        text matches Some(t) ==> t.spec_bytes() == octets@,
{
    core::str::from_utf8(octets).ok()
}

/// `heapless::String::try_from`: a copy of the text where it has at most
/// `HOSTNAME_MAXLEN` octets, and nothing otherwise.
#[verifier::external_body]
pub(crate) fn host_name(text: &str) -> (name: Option<HostName>)
    ensures
        name is Some <==> text.spec_bytes().len() <= HOSTNAME_MAXLEN,
        name matches Some(n) ==> host_name_octets(n) == text.spec_bytes(),
{
    heapless::String::try_from(text).ok()
}

/// `heapless::String`'s octets, as `str::as_bytes` gives them.
#[verifier::external_body]
pub(crate) fn host_name_bytes(name: &HostName) -> (octets: &[u8])
    ensures
        octets@ == host_name_octets(*name),
{
    name.as_bytes()
}

/// `heapless::Vec::new`: a list without names.
#[verifier::external_body]
pub(crate) fn no_dns_names() -> (names: DnsNames)
    ensures
        dns_name_octets(names) == Seq::<Seq<u8>>::empty(),
{
    heapless::Vec::new()
}

/// `heapless::Vec::push`: appends the name where the list holds fewer than
/// `MAX_SAN_DNS_NAMES` names. Otherwise the list stays as it is. The result says
/// whether the name was appended.
#[verifier::external_body]
pub(crate) fn push_dns_name(names: &mut DnsNames, name: HostName) -> (pushed: bool)
    ensures
        pushed == (dns_name_octets(*old(names)).len() < MAX_SAN_DNS_NAMES),
        dns_name_octets(*final(names)) == (if pushed {
            dns_name_octets(*old(names)).push(host_name_octets(name))
        } else {
            dns_name_octets(*old(names))
        }),
{
    names.push(name).is_ok()
}

/// `heapless::Vec::as_slice`: the names of the list, in order.
#[verifier::external_body]
pub(crate) fn dns_name_slice(names: &DnsNames) -> (items: &[HostName])
    ensures
        items@.len() == dns_name_octets(*names).len(),
        forall|i: int|
            0 <= i < items@.len() ==> host_name_octets(#[trigger] items@[i]) == dns_name_octets(
                *names,
            )[i],
{
    names.as_slice()
}

/// `heapless::Vec::new`: a message without octets.
#[verifier::external_body]
pub(crate) fn empty_message() -> (message: Message)
    ensures
        message_octets(message) == Seq::<u8>::empty(),
{
    heapless::Vec::new()
}

/// `heapless::Vec::resize`: cuts the message to `len` octets or fills it up to
/// `len` octets with `octet`. Where `len` is over `MESSAGE_MAXLEN` the message
/// stays as it is. The result says whether the message was resized.
#[verifier::external_body]
pub(crate) fn resize_message(message: &mut Message, len: usize, octet: u8) -> (resized: bool)
    ensures
        resized == (len <= MESSAGE_MAXLEN),
        message_octets(*final(message)) == (if !resized {
            message_octets(*old(message))
        } else {
            Seq::new(
                len as nat,
                |i: int|
                    if i < message_octets(*old(message)).len() {
                        message_octets(*old(message))[i]
                    } else {
                        octet
                    },
            )
        }),
{
    message.resize(len, octet).is_ok()
}

/// `heapless::Vec::extend_from_slice`: appends the octets where the message then
/// has at most `MESSAGE_MAXLEN` octets. Otherwise the message stays as it is. The
/// result says whether the octets were appended.
#[verifier::external_body]
pub(crate) fn extend_message(message: &mut Message, octets: &[u8]) -> (extended: bool)
    ensures
        extended == (message_octets(*old(message)).len() + octets@.len() <= MESSAGE_MAXLEN),
        message_octets(*final(message)) == (if extended {
            message_octets(*old(message)) + octets@
        } else {
            message_octets(*old(message))
        }),
{
    message.extend_from_slice(octets).is_ok()
}

/// `heapless::Vec::as_slice`: the octets of the message, in order.
#[verifier::external_body]
pub(crate) fn message_slice(message: &Message) -> (octets: &[u8])
    ensures
        octets@ == message_octets(*message),
{
    message.as_slice()
}

} // verus!
