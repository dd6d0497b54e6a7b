//! Matching a server's host name against the names of its certificate.
use crate::bounded;
use crate::bounded::{DnsNames, HostName};
use vstd::prelude::*;

verus! {

/// The host names that a certificate was issued for.
pub struct CertificateNames {
    /// The common name of the subject, where it has one.
    pub common_name: Option<HostName>,
    /// The DNS names among the subject's alternative names.
    pub san_dns_names: DnsNames,
}

/// The octets of the host names of a certificate.
#[verifier::ext_equal]
pub struct NamesView {
    /// The common name of the subject, where it has one.
    pub common_name: Option<Seq<u8>>,
    /// The DNS names among the subject's alternative names.
    pub san_dns_names: Seq<Seq<u8>>,
}

impl View for CertificateNames {
    type V = NamesView;

    open spec fn view(&self) -> NamesView {
        NamesView {
            common_name: bounded::optional_name_octets(self.common_name),
            san_dns_names: bounded::dns_name_octets(self.san_dns_names),
        }
    }
}

/// `.`, which stands between the labels of a name.
pub const DOT: u8 = 46;

/// `*`, the wildcard.
pub const STAR: u8 = 42;

/// Whether `octet` may stand in a host name: an ASCII letter or digit, `-` or `.`.
pub open spec fn is_host_octet(octet: u8) -> bool {
    ||| 97 <= octet <= 122
    ||| 65 <= octet <= 90
    ||| 48 <= octet <= 57
    ||| octet == 45
    ||| octet == DOT
}

/// `octet`, or the small letter of an ASCII capital letter.
pub open spec fn lowercase(octet: u8) -> u8 {
    if 65 <= octet <= 90 {
        (octet + 32) as u8
    } else {
        octet
    }
}

/// Whether two names differ at most in the case of ASCII letters.
pub open spec fn same_name(a: Seq<u8>, b: Seq<u8>) -> bool {
    &&& a.len() == b.len()
    &&& forall|i: int| 0 <= i < a.len() ==> lowercase(#[trigger] a[i]) == lowercase(b[i])
}

/// How often `octet` stands in `name`.
pub open spec fn occurrences(name: Seq<u8>, octet: u8) -> nat
    decreases name.len(),
{
    if name.len() == 0 {
        0
    } else {
        occurrences(name.drop_last(), octet) + if name.last() == octet {
            1nat
        } else {
            0nat
        }
    }
}

/// The number of labels of a name: one more than it has dots.
pub open spec fn label_count(name: Seq<u8>) -> nat {
    occurrences(name, DOT) + 1
}

/// Whether `name` consists of octets of host names alone.
pub open spec fn is_host_text(name: Seq<u8>) -> bool {
    forall|i: int| 0 <= i < name.len() ==> is_host_octet(#[trigger] name[i])
}

/// Whether `name` consists of octets of host names and wildcards alone.
pub open spec fn is_pattern_text(name: Seq<u8>) -> bool {
    forall|i: int| 0 <= i < name.len() ==> is_host_octet(#[trigger] name[i]) || name[i] == STAR
}

/// Whether the first dot of `host` is at `dot`, and what follows it is the same
/// name as `suffix`.
pub open spec fn splits_at(host: Seq<u8>, dot: int, suffix: Seq<u8>) -> bool {
    &&& 0 <= dot < host.len()
    &&& host[dot] == DOT
    &&& !host.take(dot).contains(DOT)
    &&& same_name(suffix, host.skip(dot + 1))
}

/// Whether a pattern that holds a wildcard covers `host`: its first label is the
/// wildcard, its only one; at least two labels follow; and they are the labels of
/// `host` after the first.
pub open spec fn wildcard_matches(pattern: Seq<u8>, host: Seq<u8>) -> bool {
    &&& pattern.len() >= 2
    &&& pattern[0] == STAR
    &&& pattern[1] == DOT
    &&& !pattern.skip(2).contains(STAR)
    &&& pattern.skip(2).contains(DOT)
    &&& exists|dot: int| #[trigger] splits_at(host, dot, pattern.skip(2))
}

/// Whether the name `pattern` of a certificate covers `host`.
pub open spec fn name_matches(pattern: Seq<u8>, host: Seq<u8>) -> bool {
    &&& is_pattern_text(pattern)
    &&& is_host_text(host)
    &&& if pattern.contains(STAR) {
        wildcard_matches(pattern, host)
    } else {
        same_name(pattern, host)
    }
}

/// Whether the names of a certificate cover `host`. Where the certificate has
/// alternative names, they alone count; the common name stands in where it has
/// none. Without a host name to verify, only a certificate without names passes.
pub open spec fn names_match(names: NamesView, host: Option<Seq<u8>>) -> bool {
    match host {
        None => names.common_name is None && names.san_dns_names.len() == 0,
        Some(h) => if names.san_dns_names.len() != 0 {
            exists|i: int|
                0 <= i < names.san_dns_names.len() && name_matches(
                    #[trigger] names.san_dns_names[i],
                    h,
                )
        } else {
            match names.common_name {
                Some(name) => name_matches(name, h),
                None => false,
            }
        },
    }
}

proof fn lemma_occurrences_contains(name: Seq<u8>, octet: u8)
    ensures
        occurrences(name, octet) <= name.len(),
        occurrences(name, octet) > 0 <==> name.contains(octet),
    decreases name.len(),
{
    if name.len() > 0 {
        lemma_occurrences_contains(name.drop_last(), octet);
        if name.drop_last().contains(octet) {
            let i = choose|i: int| 0 <= i < name.len() - 1 && name.drop_last()[i] == octet;
            assert(name[i] == octet);
        }
        if name.contains(octet) && name.last() != octet {
            let i = choose|i: int| 0 <= i < name.len() && name[i] == octet;
            assert(name.drop_last()[i] == octet);
        }
        if name.last() == octet {
            assert(name[name.len() - 1] == octet);
        }
    }
}

proof fn lemma_occurrences_concat(a: Seq<u8>, b: Seq<u8>, octet: u8)
    ensures
        occurrences(a + b, octet) == occurrences(a, octet) + occurrences(b, octet),
    decreases b.len(),
{
    if b.len() == 0 {
        assert(a + b =~= a);
    } else {
        lemma_occurrences_concat(a, b.drop_last(), octet);
        assert((a + b).drop_last() =~= a + b.drop_last());
    }
}

proof fn lemma_lowercase_keeps_dot_and_star(a: u8, b: u8)
    requires
        lowercase(a) == lowercase(b),
    ensures
        a == DOT <==> b == DOT,
        a == STAR <==> b == STAR,
        is_host_octet(a) <==> is_host_octet(b),
{
}

proof fn lemma_same_name_occurrences(a: Seq<u8>, b: Seq<u8>)
    requires
        same_name(a, b),
    ensures
        occurrences(a, DOT) == occurrences(b, DOT),
    decreases a.len(),
{
    if a.len() > 0 {
        let (c, d) = (a.drop_last(), b.drop_last());
        assert forall|i: int| 0 <= i < c.len() implies lowercase(#[trigger] c[i]) == lowercase(
            d[i],
        ) by {
            assert(c[i] == a[i]);
        }
        lemma_same_name_occurrences(c, d);
        assert(lowercase(a[a.len() - 1]) == lowercase(b[a.len() - 1]));
        lemma_lowercase_keeps_dot_and_star(a.last(), b.last());
    }
}

/// What is known once the first dot of a host name and a wildcard pattern are
/// found: how many dots each has.
proof fn lemma_wildcard_dots(pattern: Seq<u8>, host: Seq<u8>, dot: int)
    requires
        pattern.len() >= 2,
        pattern[0] == STAR,
        pattern[1] == DOT,
        0 <= dot < host.len(),
        host[dot] == DOT,
        !host.take(dot).contains(DOT),
    ensures
        occurrences(pattern, DOT) == 1 + occurrences(pattern.skip(2), DOT),
        occurrences(pattern, STAR) == 1 + occurrences(pattern.skip(2), STAR),
        occurrences(host, DOT) == 1 + occurrences(host.skip(dot + 1), DOT),
{
    let head = seq![STAR, DOT];
    assert(pattern =~= head + pattern.skip(2));
    lemma_occurrences_concat(head, pattern.skip(2), DOT);
    lemma_occurrences_concat(head, pattern.skip(2), STAR);
    reveal_with_fuel(occurrences, 3);
    assert(head.drop_last() =~= seq![STAR]);
    assert(head.drop_last().drop_last() =~= Seq::<u8>::empty());
    let first = host.take(dot) + seq![DOT];
    assert(host =~= first + host.skip(dot + 1));
    lemma_occurrences_concat(first, host.skip(dot + 1), DOT);
    lemma_occurrences_concat(host.take(dot), seq![DOT], DOT);
    lemma_occurrences_contains(host.take(dot), DOT);
    assert(seq![DOT].drop_last() =~= Seq::<u8>::empty());
}

/// The small letter of an ASCII capital letter; any other octet as it is.
fn to_lowercase(octet: u8) -> (small: u8)
    ensures
        small == lowercase(octet),
{
    if 65 <= octet && octet <= 90 {
        octet + 32
    } else {
        octet
    }
}

/// Whether `octet` may stand in a host name.
fn may_stand_in_host(octet: u8) -> (allowed: bool)
    ensures
        allowed == is_host_octet(octet),
{
    (97 <= octet && octet <= 122) || (65 <= octet && octet <= 90) || (48 <= octet && octet <= 57)
        || octet == 45 || octet == DOT
}

/// Whether two names differ at most in the case of ASCII letters.
fn is_same_name(a: &[u8], b: &[u8]) -> (same: bool)
    ensures
        same == same_name(a@, b@),
{
    if a.len() != b.len() {
        return false;
    }
    for i in 0..a.len()
        invariant
            a@.len() == b@.len(),
            forall|j: int| 0 <= j < i ==> lowercase(#[trigger] a@[j]) == lowercase(b@[j]),
    {
        if to_lowercase(a[i]) != to_lowercase(b[i]) {
            assert(lowercase(a@[i as int]) != lowercase(b@[i as int]));
            return false;
        }
    }
    true
}

/// Matches a host name against the certificate's names.
///
/// If the certificate contains subject alternative names, only those are used for
/// matching and the common name is ignored. If it has none, the common name is
/// used as a fallback (RFC 6125, section 6.4.4).
pub fn tls_hostname_match(names: &CertificateNames, hostname: &Option<HostName>) -> (matched: bool)
    ensures
        matched == names_match(names@, bounded::optional_name_octets(*hostname)),
{
    let sans: &[HostName] = bounded::dns_name_slice(&names.san_dns_names);
    let host: &[u8] = match hostname {
        Some(name) => bounded::host_name_bytes(name),
        None => {
            return names.common_name.is_none() && sans.len() == 0;
        },
    };
    if sans.len() != 0 {
        for i in 0..sans.len()
            invariant
                bounded::optional_name_octets(*hostname) == Some(host@),
                sans@.len() == names@.san_dns_names.len(),
                forall|j: int|
                    0 <= j < sans@.len() ==> bounded::host_name_octets(#[trigger] sans@[j])
                        == names@.san_dns_names[j],
                forall|j: int|
                    0 <= j < i ==> !name_matches(#[trigger] names@.san_dns_names[j], host@),
        {
            let san: &[u8] = bounded::host_name_bytes(&sans[i]);
            if tls_hostname_match_impl(san, host) {
                assert(name_matches(names@.san_dns_names[i as int], host@));
                return true;
            }
        }
        return false;
    }
    match &names.common_name {
        Some(name) => tls_hostname_match_impl(bounded::host_name_bytes(name), host),
        None => false,
    }
}

/// Whether the certificate name `cn` covers `host`, by the wildcard rules of
/// RFC 6125: a wildcard is the whole first label, covers exactly one label and is
/// followed by at least two.
pub fn tls_hostname_match_impl(cn: &[u8], host: &[u8]) -> (matched: bool)
    ensures
        matched == name_matches(cn@, host@),
{
    let mut cn_dots: usize = 0;
    let mut host_dots: usize = 0;
    let mut stars: usize = 0;

    for i in 0..cn.len()
        invariant
            is_pattern_text(cn@.take(i as int)),
            cn_dots == occurrences(cn@.take(i as int), DOT),
            stars == occurrences(cn@.take(i as int), STAR),
            cn_dots <= i,
            stars <= i,
    {
        let octet: u8 = cn[i];
        let ghost next = cn@.take(i + 1);
        assert(next.drop_last() =~= cn@.take(i as int));
        assert(next.last() == octet);
        if !may_stand_in_host(octet) && octet != STAR {
            assert(!is_host_octet(cn@[i as int]) && cn@[i as int] != STAR);
            return false;
        }
        assert forall|j: int| 0 <= j < next.len() implies is_host_octet(#[trigger] next[j])
            || next[j] == STAR by {
            if j < i {
                assert(next[j] == cn@.take(i as int)[j]);
            }
        }
        if octet == DOT {
            cn_dots = cn_dots + 1;
        }
        if octet == STAR {
            stars = stars + 1;
        }
    }
    assert(cn@.take(cn@.len() as int) =~= cn@);

    for i in 0..host.len()
        invariant
            is_host_text(host@.take(i as int)),
            host_dots == occurrences(host@.take(i as int), DOT),
            host_dots <= i,
    {
        let octet: u8 = host[i];
        let ghost next = host@.take(i + 1);
        assert(next.drop_last() =~= host@.take(i as int));
        assert(next.last() == octet);
        if !may_stand_in_host(octet) {
            assert(!is_host_octet(host@[i as int]));
            return false;
        }
        assert forall|j: int| 0 <= j < next.len() implies is_host_octet(#[trigger] next[j]) by {
            if j < i {
                assert(next[j] == host@.take(i as int)[j]);
            }
        }
        if octet == DOT {
            host_dots = host_dots + 1;
        }
    }
    assert(host@.take(host@.len() as int) =~= host@);

    proof {
        lemma_occurrences_contains(cn@, STAR);
        lemma_occurrences_contains(cn@, DOT);
        lemma_occurrences_contains(host@, DOT);
    }
    if stars == 0 {
        return is_same_name(cn, host);
    }
    if cn.len() < 2 || cn[0] != STAR || cn[1] != DOT {
        return false;
    }
    let suffix: &[u8] = vstd::slice::slice_subrange(cn, 2, cn.len());
    assert(suffix@ =~= cn@.skip(2));
    let mut dot: usize = 0;
    while dot < host.len() && host[dot] != DOT
        invariant
            dot <= host@.len(),
            forall|j: int| 0 <= j < dot ==> host@[j] != DOT,
        decreases host@.len() - dot,
    {
        dot = dot + 1;
    }
    if dot == host.len() {
        assert(!wildcard_matches(cn@, host@));
        return false;
    }
    proof {
        assert(!host@.take(dot as int).contains(DOT));
        lemma_wildcard_dots(cn@, host@, dot as int);
        lemma_occurrences_contains(cn@.skip(2), STAR);
        lemma_occurrences_contains(cn@.skip(2), DOT);
        assert forall|d: int| #[trigger] splits_at(host@, d, suffix@) implies d == dot by {
            if d < dot {
            } else if d > dot {
                assert(host@.take(d)[dot as int] == DOT);
            }
        }
    }
    if stars != 1 {
        return false;
    }
    if cn_dots < 2 {
        return false;
    }
    let host_suffix: &[u8] = vstd::slice::slice_subrange(host, dot + 1, host.len());
    assert(host_suffix@ =~= host@.skip(dot + 1));
    if cn_dots != host_dots {
        proof {
            if same_name(suffix@, host_suffix@) {
                lemma_same_name_occurrences(suffix@, host_suffix@);
            }
        }
        return false;
    }
    let same: bool = is_same_name(suffix, host_suffix);
    assert(same ==> splits_at(host@, dot as int, suffix@));
    same
}

proof fn lemma_same_name_symmetric(a: Seq<u8>, b: Seq<u8>)
    requires
        same_name(a, b),
    ensures
        same_name(b, a),
{
    assert forall|i: int| 0 <= i < b.len() implies lowercase(#[trigger] b[i]) == lowercase(
        a[i],
    ) by {
        assert(lowercase(a[i]) == lowercase(b[i]));
    }
}

proof fn lemma_same_name_transitive(a: Seq<u8>, b: Seq<u8>, c: Seq<u8>)
    requires
        same_name(a, b),
        same_name(b, c),
    ensures
        same_name(a, c),
{
    assert forall|i: int| 0 <= i < a.len() implies lowercase(#[trigger] a[i]) == lowercase(
        c[i],
    ) by {
        assert(lowercase(b[i]) == lowercase(c[i]));
    }
}

proof fn lemma_same_name_skip(a: Seq<u8>, b: Seq<u8>, n: int)
    requires
        same_name(a, b),
        0 <= n <= a.len(),
    ensures
        same_name(a.skip(n), b.skip(n)),
{
    assert forall|i: int| 0 <= i < a.skip(n).len() implies lowercase(#[trigger] a.skip(n)[i])
        == lowercase(b.skip(n)[i]) by {
        assert(lowercase(a[i + n]) == lowercase(b[i + n]));
    }
}

proof fn lemma_same_name_contains(a: Seq<u8>, b: Seq<u8>, octet: u8)
    requires
        same_name(a, b),
        octet == DOT || octet == STAR,
        a.contains(octet),
    ensures
        b.contains(octet),
{
    let i = choose|i: int| 0 <= i < a.len() && a[i] == octet;
    assert(lowercase(a[i]) == lowercase(b[i]));
    lemma_lowercase_keeps_dot_and_star(a[i], b[i]);
    assert(b[i] == octet);
}

proof fn lemma_same_name_take(a: Seq<u8>, b: Seq<u8>, n: int)
    requires
        same_name(a, b),
        0 <= n <= a.len(),
    ensures
        same_name(a.take(n), b.take(n)),
{
    assert forall|i: int| 0 <= i < a.take(n).len() implies lowercase(#[trigger] a.take(n)[i])
        == lowercase(b.take(n)[i]) by {
        assert(lowercase(a[i]) == lowercase(b[i]));
    }
}

proof fn lemma_same_name_keeps_match(p: Seq<u8>, q: Seq<u8>, g: Seq<u8>, h: Seq<u8>)
    requires
        same_name(p, q),
        same_name(g, h),
        name_matches(p, g),
    ensures
        name_matches(q, h),
{
    lemma_same_name_symmetric(p, q);
    lemma_same_name_symmetric(g, h);
    assert forall|i: int| 0 <= i < q.len() implies is_host_octet(#[trigger] q[i]) || q[i]
        == STAR by {
        assert(lowercase(p[i]) == lowercase(q[i]));
        lemma_lowercase_keeps_dot_and_star(p[i], q[i]);
    }
    assert forall|i: int| 0 <= i < h.len() implies is_host_octet(#[trigger] h[i]) by {
        assert(lowercase(g[i]) == lowercase(h[i]));
        lemma_lowercase_keeps_dot_and_star(g[i], h[i]);
    }
    if p.contains(STAR) {
        lemma_same_name_contains(p, q, STAR);
        assert(lowercase(p[0]) == lowercase(q[0]));
        assert(lowercase(p[1]) == lowercase(q[1]));
        lemma_same_name_skip(p, q, 2);
        lemma_same_name_skip(q, p, 2);
        lemma_same_name_contains(p.skip(2), q.skip(2), DOT);
        if q.skip(2).contains(STAR) {
            lemma_same_name_contains(q.skip(2), p.skip(2), STAR);
        }
        let dot = choose|dot: int| #[trigger] splits_at(g, dot, p.skip(2));
        assert(lowercase(g[dot]) == lowercase(h[dot]));
        lemma_lowercase_keeps_dot_and_star(g[dot], h[dot]);
        lemma_same_name_take(h, g, dot);
        if h.take(dot).contains(DOT) {
            lemma_same_name_contains(h.take(dot), g.take(dot), DOT);
        }
        lemma_same_name_skip(g, h, dot + 1);
        lemma_same_name_transitive(q.skip(2), p.skip(2), g.skip(dot + 1));
        lemma_same_name_transitive(q.skip(2), g.skip(dot + 1), h.skip(dot + 1));
        assert(splits_at(h, dot, q.skip(2)));
    } else {
        if q.contains(STAR) {
            lemma_same_name_contains(q, p, STAR);
        }
        lemma_same_name_transitive(q, p, g);
        lemma_same_name_transitive(q, g, h);
    }
}

/// The case of ASCII letters, in the certificate's name or in the host name, makes
/// no difference to a match.
pub proof fn law_case_is_ignored(
    pattern: Seq<u8>,
    other_pattern: Seq<u8>,
    host: Seq<u8>,
    other_host: Seq<u8>,
)
    requires
        same_name(pattern, other_pattern),
        same_name(host, other_host),
    ensures
        name_matches(pattern, host) == name_matches(other_pattern, other_host),
{
    lemma_same_name_symmetric(pattern, other_pattern);
    lemma_same_name_symmetric(host, other_host);
    if name_matches(pattern, host) {
        lemma_same_name_keeps_match(pattern, other_pattern, host, other_host);
    }
    if name_matches(other_pattern, other_host) {
        lemma_same_name_keeps_match(other_pattern, pattern, other_host, host);
    }
}

/// Every name made of letters, digits, hyphens and dots matches itself.
pub proof fn law_name_matches_itself(name: Seq<u8>)
    requires
        is_host_text(name),
    ensures
        name_matches(name, name),
{
    if name.contains(STAR) {
        let i = choose|i: int| 0 <= i < name.len() && name[i] == STAR;
        assert(is_host_octet(name[i]));
    }
}

/// A name or host name with an octet other than a letter, a digit, a hyphen or a
/// dot (or, in the certificate's name, a wildcard) never matches.
pub proof fn law_foreign_octet_never_matches(pattern: Seq<u8>, host: Seq<u8>, i: int)
    requires
        ({
            ||| 0 <= i < pattern.len() && !is_host_octet(pattern[i]) && pattern[i] != STAR
            ||| 0 <= i < host.len() && !is_host_octet(host[i])
        }),
    ensures
        !name_matches(pattern, host),
{
}

/// A certificate's name matches only host names with as many labels as it has.
pub proof fn law_match_keeps_label_count(pattern: Seq<u8>, host: Seq<u8>)
    requires
        name_matches(pattern, host),
    ensures
        label_count(pattern) == label_count(host),
{
    if pattern.contains(STAR) {
        let dot = choose|dot: int| #[trigger] splits_at(host, dot, pattern.skip(2));
        lemma_wildcard_dots(pattern, host, dot);
        lemma_same_name_occurrences(pattern.skip(2), host.skip(dot + 1));
    } else {
        lemma_same_name_occurrences(pattern, host);
    }
}

/// A name with a wildcard matches only where the wildcard is its only one and is
/// the whole of its first label, where it has at least three labels, and where the
/// host name is one label followed by the rest of the name.
pub proof fn law_wildcard_covers_one_label(pattern: Seq<u8>, host: Seq<u8>)
    requires
        pattern.contains(STAR),
        name_matches(pattern, host),
    ensures
        pattern[0] == STAR && pattern[1] == DOT,
        occurrences(pattern, STAR) == 1,
        label_count(pattern) >= 3,
        exists|n: int|
            #![trigger host.take(n)]
            0 <= n <= host.len() && !host.take(n).contains(DOT) && same_name(
                pattern.skip(1),
                host.skip(n),
            ),
{
    let dot = choose|dot: int| #[trigger] splits_at(host, dot, pattern.skip(2));
    lemma_wildcard_dots(pattern, host, dot);
    lemma_occurrences_contains(pattern.skip(2), STAR);
    lemma_occurrences_contains(pattern.skip(2), DOT);
    assert forall|i: int| 0 <= i < pattern.skip(1).len() implies lowercase(
        #[trigger] pattern.skip(1)[i],
    ) == lowercase(host.skip(dot)[i]) by {
        if i > 0 {
            assert(lowercase(pattern.skip(2)[i - 1]) == lowercase(host.skip(dot + 1)[i - 1]));
        }
    }
    assert(same_name(pattern.skip(1), host.skip(dot)));
    assert(!host.take(dot).contains(DOT));
}

/// A wildcard before at least two labels matches every label before those labels.
pub proof fn law_wildcard_matches_every_label(label: Seq<u8>, suffix: Seq<u8>)
    requires
        is_host_text(label),
        !label.contains(DOT),
        is_host_text(suffix),
        suffix.contains(DOT),
    ensures
        name_matches(seq![STAR, DOT] + suffix, label + seq![DOT] + suffix),
{
    let pattern = seq![STAR, DOT] + suffix;
    let host = label + seq![DOT] + suffix;
    let dot = label.len() as int;
    assert(pattern[0] == STAR);
    assert(pattern.contains(STAR));
    assert forall|i: int| 0 <= i < pattern.len() implies is_host_octet(#[trigger] pattern[i])
        || pattern[i] == STAR by {
        if i >= 2 {
            assert(pattern[i] == suffix[i - 2]);
        }
    }
    assert forall|i: int| 0 <= i < host.len() implies is_host_octet(#[trigger] host[i]) by {
        if i < dot {
            assert(host[i] == label[i]);
        } else if i > dot {
            assert(host[i] == suffix[i - dot - 1]);
        }
    }
    assert(pattern.skip(2) =~= suffix);
    assert(host.take(dot) =~= label);
    assert(host.skip(dot + 1) =~= suffix);
    if suffix.contains(STAR) {
        let i = choose|i: int| 0 <= i < suffix.len() && suffix[i] == STAR;
        assert(is_host_octet(suffix[i]));
    }
    assert(splits_at(host, dot, pattern.skip(2)));
}

/// Where a certificate has alternative names, its common name makes no difference.
pub proof fn law_common_name_ignored_beside_alternative_names(
    names: NamesView,
    other: NamesView,
    host: Option<Seq<u8>>,
)
    requires
        names.san_dns_names.len() != 0,
        other.san_dns_names == names.san_dns_names,
    ensures
        names_match(names, host) == names_match(other, host),
{
}

/// A name without a wildcard matches exactly the host names of its own length, of letters,
/// digits, hyphens and dots, that have the same octet at every place, up to the case of
/// ASCII letters.
pub proof fn law_plain_names_match_octet_by_octet(name: Seq<u8>, host: Seq<u8>)
    requires
        forall|i: int| 0 <= i < name.len() ==> name[i] != 42,
    ensures
        name_matches(name, host) <==> {
            &&& name.len() == host.len()
            &&& forall|i: int|
                #![trigger name[i]]
                #![trigger host[i]]
                0 <= i < host.len() ==> {
                    &&& 97 <= host[i] <= 122 || 65 <= host[i] <= 90 || 48 <= host[i] <= 57
                        || host[i] == 45 || host[i] == 46
                    &&& name[i] == host[i] || 65 <= name[i] <= 90 && host[i] == name[i] + 32 || 65
                        <= host[i] <= 90 && name[i] == host[i] + 32
                }
        },
{
    assert(!name.contains(STAR));
}

/// Where a name with a wildcard matches, the wildcard is the whole first label and the only
/// one, a dot follows the next label, and the host name is a label of letters, digits and
/// hyphens followed by the octets of the name after the wildcard, up to the case of ASCII
/// letters. The result is the place of the first dot of the host name.
pub proof fn law_a_matching_wildcard_stands_for_a_label(pattern: Seq<u8>, host: Seq<u8>) -> (dot:
    int)
    requires
        name_matches(pattern, host),
        exists|i: int| 0 <= i < pattern.len() && pattern[i] == 42,
    ensures
        pattern.len() >= 2 && pattern[0] == 42 && pattern[1] == 46,
        forall|i: int| 2 <= i < pattern.len() ==> pattern[i] != 42,
        exists|i: int| 2 <= i < pattern.len() && pattern[i] == 46,
        0 <= dot < host.len() && host[dot] == 46,
        forall|i: int| 0 <= i < dot ==> host[i] != 46,
        forall|i: int|
            0 <= i < host.len() ==> 97 <= #[trigger] host[i] <= 122 || 65 <= host[i] <= 90 || 48
                <= host[i] <= 57 || host[i] == 45 || host[i] == 46,
        host.len() - dot == pattern.len() - 1,
        forall|i: int|
            2 <= i < pattern.len() ==> {
                let (a, b) = (#[trigger] pattern[i], host[dot + i - 1]);
                a == b || 65 <= a <= 90 && b == a + 32 || 65 <= b <= 90 && a == b + 32
            },
{
    assert(pattern.contains(STAR));
    let suffix = pattern.skip(2);
    let dot = choose|dot: int| #[trigger] splits_at(host, dot, suffix);
    let j = choose|j: int| 0 <= j < suffix.len() && suffix[j] == DOT;
    assert(pattern[j + 2] == 46);
    assert forall|i: int| 2 <= i < pattern.len() implies pattern[i] != 42 by {
        assert(suffix[i - 2] == pattern[i]);
    }
    assert forall|i: int| 0 <= i < dot implies host[i] != 46 by {
        assert(host.take(dot)[i] == host[i]);
    }
    assert forall|i: int| 2 <= i < pattern.len() implies {
        let (a, b) = (#[trigger] pattern[i], host[dot + i - 1]);
        a == b || 65 <= a <= 90 && b == a + 32 || 65 <= b <= 90 && a == b + 32
    } by {
        assert(lowercase(suffix[i - 2]) == lowercase(host.skip(dot + 1)[i - 2]));
    }
    dot
}

/// A name that starts with a wildcard label, has no other wildcard and has a dot after the
/// next label matches every host name that is one label, then the octets of the name after
/// the wildcard, up to the case of ASCII letters. `dot` is the place of the first dot of the
/// host name.
pub proof fn law_a_wildcard_label_matches_any_label(pattern: Seq<u8>, host: Seq<u8>, dot: int)
    requires
        pattern.len() >= 2 && pattern[0] == 42 && pattern[1] == 46,
        forall|i: int| 2 <= i < pattern.len() ==> pattern[i] != 42,
        exists|i: int| 2 <= i < pattern.len() && pattern[i] == 46,
        0 <= dot < host.len() && host[dot] == 46,
        forall|i: int| 0 <= i < dot ==> host[i] != 46,
        forall|i: int|
            0 <= i < host.len() ==> 97 <= #[trigger] host[i] <= 122 || 65 <= host[i] <= 90 || 48
                <= host[i] <= 57 || host[i] == 45 || host[i] == 46,
        host.len() - dot == pattern.len() - 1,
        forall|i: int|
            2 <= i < pattern.len() ==> {
                let (a, b) = (#[trigger] pattern[i], host[dot + i - 1]);
                a == b || 65 <= a <= 90 && b == a + 32 || 65 <= b <= 90 && a == b + 32
            },
    ensures
        name_matches(pattern, host),
{
    let suffix = pattern.skip(2);
    assert(pattern.contains(STAR));
    let j = choose|j: int| 2 <= j < pattern.len() && pattern[j] == 46;
    assert(suffix[j - 2] == DOT);
    assert forall|i: int| 0 <= i < pattern.len() implies is_host_octet(#[trigger] pattern[i])
        || pattern[i] == STAR by {
        if i >= 2 {
            assert(is_host_octet(host[dot + i - 1]));
        }
    }
    assert forall|i: int| 0 <= i < suffix.len() implies lowercase(#[trigger] suffix[i])
        == lowercase(host.skip(dot + 1)[i]) by {
        assert(suffix[i] == pattern[i + 2]);
    }
    assert(splits_at(host, dot, suffix));
}

/// With a host, a certificate's names match exactly where one of its alternative names
/// does, or where it has none and its common name does. Without a host, they match exactly
/// where there are none.
pub proof fn law_names_are_tried_one_by_one(
    common_name: Option<Seq<u8>>,
    san_dns_names: Seq<Seq<u8>>,
    host: Seq<u8>,
)
    ensures
        san_dns_names.len() > 0 ==> (names_match(
            NamesView { common_name, san_dns_names },
            Some(host),
        ) <==> exists|i: int|
            0 <= i < san_dns_names.len() && name_matches(#[trigger] san_dns_names[i], host)),
        san_dns_names.len() == 0 ==> (names_match(
            NamesView { common_name, san_dns_names },
            Some(host),
        ) <==> common_name is Some && name_matches(common_name->0, host)),
        names_match(NamesView { common_name, san_dns_names }, None) <==> common_name is None
            && san_dns_names.len() == 0,
{
}

/// The names of a certificate show the octets of its common name, where it has one, and those
/// of its DNS names.
pub proof fn law_views_show_every_name(names: CertificateNames)
    ensures
        names@.common_name is Some <==> names.common_name is Some,
        names.common_name matches Some(name) ==> names@.common_name == Some(
            bounded::host_name_octets(name),
        ),
        names@.san_dns_names == bounded::dns_name_octets(names.san_dns_names),
{
}

} // verus!
