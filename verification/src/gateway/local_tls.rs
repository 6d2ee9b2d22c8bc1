//! Certificates for the browser's own connections to the gateway.
use crate::dns;
use crate::hash;
use crate::text;
use vstd::prelude::*;
use vstd::string::*;

verus! {

pub const LOCAL_TLS_CERT_FINGERPRINT_BYTES: usize = 32;

/// The most characters that a host for a certificate has.
pub const MAX_LOCAL_TLS_HOST_CHARS: usize = 253;

/// A label of a host that a certificate can be made for.
pub open spec fn is_tls_label(label: Seq<char>) -> bool {
    &&& 0 < label.len() <= 63
    &&& forall|i: int|
        0 <= i < label.len() ==> text::is_ascii_alnum(#[trigger] label[i]) || label[i] == '-'
    &&& label[0] != '-'
    &&& label.last() != '-'
}

pub fn valid_local_tls_label(label: &Vec<char>) -> (r: bool)
    ensures
        r == is_tls_label(label@),
{
    if label.len() == 0 || label.len() > 63 {
        return false;
    }
    let mut i: usize = 0;
    while i < label.len()
        invariant
            i <= label@.len(),
            forall|j: int|
                0 <= j < i ==> text::is_ascii_alnum(#[trigger] label@[j]) || label@[j] == '-',
        decreases label@.len() - i,
    {
        if !text::char_is_alnum(label[i]) && label[i] != '-' {
            return false;
        }
        i = i + 1;
    }
    label[0] != '-' && label[label.len() - 1] != '-'
}

/// A part of an IPv4 address: one to three digits, at most 255.
pub open spec fn is_octet(part: Seq<char>) -> bool {
    &&& 0 < part.len() <= 3
    &&& forall|i: int| 0 <= i < part.len() ==> text::is_digit(#[trigger] part[i])
    &&& text::parsed_number(part, 10, 255) is Some
}

fn is_octet_text(part: &Vec<char>) -> (r: bool)
    ensures
        r == is_octet(part@),
{
    if part.len() == 0 || part.len() > 3 {
        return false;
    }
    let mut i: usize = 0;
    while i < part.len()
        invariant
            i <= part@.len(),
            forall|j: int| 0 <= j < i ==> text::is_digit(#[trigger] part@[j]),
        decreases part@.len() - i,
    {
        if !('0' <= part[i] && part[i] <= '9') {
            return false;
        }
        i = i + 1;
    }
    text::parse_number(part, 10, 255).is_some()
}

pub open spec fn is_ipv4(host: Seq<char>) -> bool {
    let parts = text::split(host, '.');
    parts.len() == 4 && forall|i: int| 0 <= i < parts.len() ==> is_octet(#[trigger] parts[i])
}

pub fn is_ipv4_literal(host: &Vec<char>) -> (r: bool)
    ensures
        r == is_ipv4(host@),
{
    let parts = text::split_chars(host, '.');
    let ghost all = text::split(host@, '.');
    assert(text::views(parts@).len() == parts@.len());
    if parts.len() != 4 {
        return false;
    }
    let mut i: usize = 0;
    while i < parts.len()
        invariant
            i <= parts@.len(),
            all == text::split(host@, '.'),
            text::views(parts@) == all,
            all.len() == parts@.len(),
            forall|j: int| 0 <= j < i ==> is_octet(#[trigger] all[j]),
        decreases parts@.len() - i,
    {
        assert(text::views(parts@)[i as int] == parts@[i as int]@);
        if !is_octet_text(&parts[i]) {
            return false;
        }
        i = i + 1;
    }
    true
}

/// The host that a certificate is made for; none where it is no name.
pub open spec fn tls_host(host: Seq<char>) -> Option<Seq<char>> {
    let bare = text::lower(text::trim_end_dots(text::trim(host)));
    let labels = text::split(bare, '.');
    if 0 < bare.len() <= MAX_LOCAL_TLS_HOST_CHARS && !is_ipv4(bare) && (forall|i: int|
        0 <= i < labels.len() ==> is_tls_label(#[trigger] labels[i])) {
        Some(bare)
    } else {
        None
    }
}

pub fn normalized_local_tls_host(host: &str) -> (r: Option<String>)
    ensures
        tls_host(host@) == (match r {
            Some(bare) => Some(bare@),
            None => None,
        }),
{
    let cs = text::chars_of(host);
    let cs = text::trimmed(&cs);
    let cs = text::without_end_dots(&cs);
    let bare = text::text_of(&cs);
    let bare = text::to_lower(bare.as_str());
    let cs = text::chars_of(bare.as_str());
    if cs.len() == 0 || cs.len() > MAX_LOCAL_TLS_HOST_CHARS {
        return None;
    }
    if is_ipv4_literal(&cs) {
        return None;
    }
    let labels = text::split_chars(&cs, '.');
    let ghost all = text::split(bare@, '.');
    assert(text::views(labels@).len() == labels@.len());
    let mut i: usize = 0;
    while i < labels.len()
        invariant
            i <= labels@.len(),
            all == text::split(bare@, '.'),
            text::views(labels@) == all,
            all.len() == labels@.len(),
            bare@ == text::lower(text::trim_end_dots(text::trim(host@))),
            forall|j: int| 0 <= j < i ==> is_tls_label(#[trigger] all[j]),
        decreases labels@.len() - i,
    {
        assert(text::views(labels@)[i as int] == labels@[i as int]@);
        if !valid_local_tls_label(&labels[i]) {
            assert(!is_tls_label(all[i as int]));
            return None;
        }
        i = i + 1;
    }
    Some(bare)
}

/// A length in four bytes, the highest first.
pub open spec fn be32(n: nat) -> Seq<u8> {
    seq![
        (n / 0x100_0000) as u8,
        ((n / 0x1_0000) % 0x100) as u8,
        ((n / 0x100) % 0x100) as u8,
        (n % 0x100) as u8,
    ]
}

fn push_be32(out: &mut Vec<u8>, n: usize)
    requires
        n <= u32::MAX,
    ensures
        final(out)@ == old(out)@ + be32(n as nat),
{
    let ghost before = out@;
    out.push((n / 0x100_0000) as u8);
    out.push(((n / 0x1_0000) % 0x100) as u8);
    out.push(((n / 0x100) % 0x100) as u8);
    out.push((n % 0x100) as u8);
    assert(out@ =~= before + be32(n as nat));
}

/// A certificate, its key and its fingerprint in one: each of the first two
/// after its length.
pub open spec fn bundle_with(cert: Seq<u8>, key: Seq<u8>, fingerprint: Seq<u8>) -> Seq<u8> {
    be32(cert.len()) + cert + be32(key.len()) + key + fingerprint
}

/// A certificate and its key, with the fingerprint of the certificate.
pub open spec fn bundle(cert: Seq<u8>, key: Seq<u8>) -> Seq<u8> {
    bundle_with(cert, key, hash::sha2_256(cert))
}

/// Puts a certificate, its key and its fingerprint into one; none if one of the
/// first two is too long for its length.
pub fn tls_bundle_with(cert: &Vec<u8>, key: &Vec<u8>, fingerprint: &Vec<u8>) -> (r: Option<Vec<u8>>)
    ensures
        match r {
            Some(bytes) => cert@.len() <= u32::MAX && key@.len() <= u32::MAX && bytes@
                == bundle_with(cert@, key@, fingerprint@),
            None => cert@.len() > u32::MAX || key@.len() > u32::MAX,
        },
{
    if cert.len() as u64 > u32::MAX as u64 || key.len() as u64 > u32::MAX as u64 {
        return None;
    }
    let mut out: Vec<u8> = Vec::new();
    push_be32(&mut out, cert.len());
    let mut part = dns::copy_bytes(cert);
    out.append(&mut part);
    push_be32(&mut out, key.len());
    let mut part = dns::copy_bytes(key);
    out.append(&mut part);
    let mut part = dns::copy_bytes(fingerprint);
    out.append(&mut part);
    assert(out@ =~= bundle_with(cert@, key@, fingerprint@));
    Some(out)
}

/// Puts a certificate and its key into one.
pub fn tls_bundle(cert: &Vec<u8>, key: &Vec<u8>) -> (r: Option<Vec<u8>>)
    ensures
        match r {
            Some(bytes) => cert@.len() <= u32::MAX && key@.len() <= u32::MAX && bytes@ == bundle(
                cert@,
                key@,
            ),
            None => cert@.len() > u32::MAX || key@.len() > u32::MAX,
        },
{
    let fingerprint = hash::sha256(cert);
    tls_bundle_with(cert, key, &fingerprint)
}

/// Whether a certificate is valid for the host and signed with the key, both as
/// DER.
pub uninterp spec fn self_signed_for(cert: Seq<u8>, key: Seq<u8>, host: Seq<char>) -> bool;

/// `rcgen::generate_simple_self_signed`: a certificate that is valid for the
/// host, and the fresh key that it is signed with, both as DER. The key is
/// random, and so are the bytes of both; nothing is said of when there is none.
#[verifier::external_body]
fn self_signed(host: String) -> (r: Option<(Vec<u8>, Vec<u8>)>)
    ensures
        match r {
            Some((cert, key)) => self_signed_for(cert@, key@, host@),
            None => true,
        },
{
    let made = rcgen::generate_simple_self_signed(vec![host]).ok()?;
    Some((made.cert.der().as_ref().to_vec(), made.signing_key.serialize_der()))
}

/// What is handed out of a certificate and its key, if they could be made.
pub fn bundle_of_made(made: Option<(Vec<u8>, Vec<u8>)>) -> (r: Option<Vec<u8>>)
    ensures
        match (made, r) {
            (Some((cert, key)), Some(bytes)) => cert@.len() <= u32::MAX && key@.len() <= u32::MAX
                && bytes@ == bundle(cert@, key@),
            (Some((cert, key)), None) => cert@.len() > u32::MAX || key@.len() > u32::MAX,
            (None, r) => r is None,
        },
{
    match made {
        Some((cert, key)) => tls_bundle(&cert, &key),
        None => None,
    }
}

/// Whether bytes are a certificate for the host and its key in one.
pub open spec fn is_bundle_for(bytes: Seq<u8>, host: Seq<char>) -> bool {
    exists|cert: Seq<u8>, key: Seq<u8>|
        #[trigger] self_signed_for(cert, key, host) && cert.len() <= u32::MAX && key.len()
            <= u32::MAX && bytes == bundle(cert, key)
}

/// A fresh certificate for a host, with its key and its fingerprint. There is
/// none for what is no name.
pub fn local_tls_certificate_bundle(host: &str) -> (r: Option<Vec<u8>>)
    ensures
        match r {
            Some(bytes) => tls_host(host@) is Some && is_bundle_for(bytes@, tls_host(host@)->0),
            None => true,
        },
        tls_host(host@) is None ==> r is None,
{
    let host = match normalized_local_tls_host(host) {
        Some(host) => host,
        None => {
            return None;
        },
    };
    let made = self_signed(host);
    bundle_of_made(made)
}

/// What was put into one can be taken apart again.
pub proof fn law_bundle_holds_its_parts(cert: Seq<u8>, key: Seq<u8>)
    requires
        cert.len() <= u32::MAX,
        key.len() <= u32::MAX,
    ensures
        bundle(cert, key).subrange(0, 4) == be32(cert.len()),
        bundle(cert, key).subrange(4, 4int + cert.len()) == cert,
        bundle(cert, key).subrange(4int + cert.len(), 8int + cert.len()) == be32(key.len()),
        bundle(cert, key).subrange(8int + cert.len(), 8int + cert.len() + key.len()) == key,
        bundle(cert, key).skip((8 + cert.len() + key.len()) as int) == hash::sha2_256(cert),
{
    let all = bundle(cert, key);
    assert(all.subrange(0, 4) =~= be32(cert.len()));
    assert(all.subrange(4, 4int + cert.len()) =~= cert);
    assert(all.subrange(4int + cert.len(), 8int + cert.len()) =~= be32(key.len()));
    assert(all.subrange(8int + cert.len(), 8int + cert.len() + key.len()) =~= key);
    assert(all.skip((8 + cert.len() + key.len()) as int) =~= hash::sha2_256(cert));
}

/// A certificate is made for names only: not for an address, in brackets or
/// not.
pub proof fn law_no_certificate_for_addresses(host: Seq<char>)
    requires
        tls_host(host) is Some,
    ensures
        !is_ipv4(tls_host(host)->0),
        !tls_host(host)->0.contains(':'),
        !tls_host(host)->0.contains('['),
{
    let bare = tls_host(host)->0;
    lemma_split_chars(bare);
    assert forall|i: int| 0 <= i < bare.len() implies bare[i] != ':' && bare[i] != '[' by {
        assert(bare[i] == '.' || text::is_ascii_alnum(bare[i]) || bare[i] == '-');
    }
}

proof fn lemma_split_chars(s: Seq<char>)
    requires
        forall|k: int|
            0 <= k < text::split(s, '.').len() ==> is_tls_label(#[trigger] text::split(s, '.')[k]),
    ensures
        forall|i: int|
            0 <= i < s.len() ==> (#[trigger] s[i]) == '.' || text::is_ascii_alnum(s[i]) || s[i]
                == '-',
    decreases s.len(),
{
    let at = text::find(s, '.') as int;
    text::lemma_find(s, '.');
    let all = text::split(s, '.');
    if at < s.len() {
        let rest = s.skip(at + 1);
        let more = text::split(rest, '.');
        assert(all =~= seq![s.take(at)] + more);
        assert forall|k: int| 0 <= k < more.len() implies is_tls_label(#[trigger] more[k]) by {
            assert(all[k + 1] == more[k]);
        }
        lemma_split_chars(rest);
        assert(all[0] == s.take(at));
        assert forall|i: int| 0 <= i < s.len() implies (#[trigger] s[i]) == '.'
            || text::is_ascii_alnum(s[i]) || s[i] == '-' by {
            if i < at {
                assert(s.take(at)[i] == s[i]);
            } else if i > at {
                assert(rest[i - at - 1] == s[i]);
            }
        }
    } else {
        assert(all[0] == s);
    }
}

/// A host in small letters, of labels that a certificate can be made for, is the
/// name of its certificate, with a closing full stop or without one.
pub proof fn law_named_hosts_get_a_certificate(host: Seq<char>)
    requires
        0 < host.len() <= 253,
        text::lower(host) == host,
        !text::is_space(host[0]),
        !text::is_space(host.last()),
        host.last() != '.',
        !is_ipv4(host),
        forall|i: int|
            0 <= i < text::split(host, '.').len() ==> is_tls_label(
                #[trigger] text::split(host, '.')[i],
            ),
    ensures
        tls_host(host) == Some(host),
        tls_host(host.push('.')) == Some(host),
{
    text::law_trimmed_text_stays(host);
    text::law_trimmed_text_stays(host.push('.'));
    reveal_with_fuel(text::trim_end_dots, 3);
    assert(host.push('.').drop_last() =~= host);
}

/// A label for a certificate: up to 63 letters, digits and hyphens, with no hyphen
/// at either end.
pub proof fn law_labels_for_certificates(label: Seq<char>)
    ensures
        is_tls_label(label) <==> label.len() >= 1 && label.len() < 64 && !(label[0] == '-')
            && !(label[label.len() - 1] == '-') && forall|i: int|
            0 <= i < label.len() ==> 'a' <= #[trigger] label[i] <= 'z' || 'A' <= label[i] <= 'Z'
                || '0' <= label[i] <= '9' || label[i] == '-',
{
    if is_tls_label(label) {
        assert forall|i: int| 0 <= i < label.len() implies 'a' <= #[trigger] label[i] <= 'z' || 'A'
            <= label[i] <= 'Z' || '0' <= label[i] <= '9' || label[i] == '-' by {
            assert(text::is_ascii_alnum(label[i]) || label[i] == '-');
        }
    }
}

/// Four numbers up to 255 with full stops between them are an address; a larger
/// number is no part of one.
pub proof fn law_dotted_numbers_are_addresses(a: nat, b: nat, c: nat, d: nat)
    ensures
        is_ipv4(dotted(a, b, c, d)) <==> a <= 255 && b <= 255 && c <= 255 && d <= 255,
{
    let parts = seq![text::decimal(a), text::decimal(b), text::decimal(c), text::decimal(d)];
    lemma_number_has_no_dot(a);
    lemma_number_has_no_dot(b);
    lemma_number_has_no_dot(c);
    lemma_number_has_no_dot(d);
    let last = text::decimal(d);
    let two = text::decimal(c) + seq!['.'] + last;
    let three = text::decimal(b) + seq!['.'] + two;
    text::law_split_undoes_joining(last, Seq::empty(), '.');
    text::law_split_undoes_joining(text::decimal(c), last, '.');
    text::law_split_undoes_joining(text::decimal(b), two, '.');
    text::law_split_undoes_joining(text::decimal(a), three, '.');
    assert(text::split(dotted(a, b, c, d), '.') =~= parts);
    lemma_octet(a);
    lemma_octet(b);
    lemma_octet(c);
    lemma_octet(d);
    if is_ipv4(dotted(a, b, c, d)) {
        assert(is_octet(parts[0]) && is_octet(parts[1]) && is_octet(parts[2]) && is_octet(
            parts[3],
        ));
    }
}

/// Four numbers with full stops between them.
pub open spec fn dotted(a: nat, b: nat, c: nat, d: nat) -> Seq<char> {
    text::decimal(a) + seq!['.'] + (text::decimal(b) + seq!['.'] + (text::decimal(c) + seq!['.']
        + text::decimal(d)))
}

proof fn lemma_number_has_no_dot(n: nat)
    ensures
        !text::decimal(n).contains('.'),
{
    text::lemma_decimal_digits(n);
    assert forall|i: int| 0 <= i < text::decimal(n).len() implies text::decimal(n)[i] != '.' by {
    }
}

proof fn lemma_octet(n: nat)
    ensures
        is_octet(text::decimal(n)) <==> n <= 255,
{
    text::lemma_decimal_digits(n);
    text::law_decimal_reads_back(n, n + 255);
    let digits = text::decimal(n);
    assert forall|i: int| 0 <= i < digits.len() implies text::is_digit(#[trigger] digits[i]) by {
    }
    reveal_with_fuel(text::decimal, 4);
}

/// A length is read back from its four bytes.
pub proof fn law_length_reads_back(n: nat)
    requires
        n <= u32::MAX,
    ensures
        be32(n).len() == 4,
        be32(n)[0] * 0x100_0000 + be32(n)[1] * 0x1_0000 + be32(n)[2] * 0x100 + be32(n)[3] == n,
{
}

} // verus!
