//! Domain names, Handshake root labels, and how typed input is classified.
use crate::error::{NameHashError, ResolverError};
use crate::text;
use vstd::prelude::*;
use vstd::string::*;

verus! {

/// The longest label of a domain name.
pub const MAX_LABEL_CHARS: usize = 63;

/// The longest domain name, counted as it is written on the wire.
pub const MAX_NAME_WIRE_BYTES: usize = 255;

/// What the user typed, told apart before any lookup.
#[derive(Clone, Copy, Debug, PartialEq, Eq, Structural)]
pub enum NameClass {
    Hns,
    Icann,
    Search,
}

/// A domain name as its labels, in lower case, the root label last.
#[derive(Clone, Debug, PartialEq, Eq)]
pub struct DnsName {
    pub labels: Vec<String>,
}

impl View for DnsName {
    type V = Seq<Seq<char>>;

    open spec fn view(&self) -> Seq<Seq<char>> {
        text::texts(self.labels@)
    }
}

/// The characters that a label may hold: printable ASCII other than the full stop.
pub open spec fn is_label_char(c: char) -> bool {
    '!' <= c <= '~' && c != '.'
}

pub open spec fn is_label(s: Seq<char>) -> bool {
    1 <= s.len() <= MAX_LABEL_CHARS && forall|i: int| 0 <= i < s.len() ==> is_label_char(s[i])
}

/// The bytes that the labels take on the wire, without the closing root byte.
pub open spec fn wire_bytes(labels: Seq<Seq<char>>) -> nat
    decreases labels.len(),
{
    if labels.len() == 0 {
        0
    } else {
        wire_bytes(labels.drop_last()) + labels.last().len() + 1
    }
}

pub open spec fn lower_all(labels: Seq<Seq<char>>) -> Seq<Seq<char>> {
    Seq::new(labels.len(), |i: int| text::lower(labels[i]))
}

/// The text without one closing full stop.
pub open spec fn without_root_dot(s: Seq<char>) -> Seq<char> {
    if s.len() > 0 && s.last() == '.' {
        s.drop_last()
    } else {
        s
    }
}

/// The labels that a written name stands for, where it is one.
pub open spec fn parse_name(s: Seq<char>) -> Option<Seq<Seq<char>>> {
    let t = without_root_dot(s);
    if t.len() == 0 {
        Some(Seq::empty())
    } else {
        let labels = text::split(t, '.');
        if (forall|i: int| 0 <= i < labels.len() ==> is_label(#[trigger] labels[i])) && wire_bytes(labels)
            + 1 <= MAX_NAME_WIRE_BYTES {
            Some(lower_all(labels))
        } else {
            None
        }
    }
}

fn label_is_valid(cs: &Vec<char>) -> (r: bool)
    ensures
        r == is_label(cs@),
{
    if cs.len() == 0 || cs.len() > MAX_LABEL_CHARS {
        return false;
    }
    let mut i: usize = 0;
    while i < cs.len()
        invariant
            i <= cs.len(),
            forall|j: int| 0 <= j < i ==> is_label_char(cs@[j]),
        decreases cs.len() - i,
    {
        let c = cs[i];
        if c < '!' || c > '~' || c == '.' {
            assert(!is_label_char(cs@[i as int]));
            return false;
        }
        i = i + 1;
    }
    true
}

/// Whether two lists of labels are the same.
pub fn same_labels(a: &Vec<String>, b: &Vec<String>) -> (r: bool)
    ensures
        r == (text::texts(a@) == text::texts(b@)),
{
    if a.len() != b.len() {
        assert(text::texts(a@).len() != text::texts(b@).len());
        return false;
    }
    let mut i: usize = 0;
    while i < a.len()
        invariant
            i <= a.len(),
            a.len() == b.len(),
            forall|j: int| 0 <= j < i ==> a@[j]@ == b@[j]@,
        decreases a.len() - i,
    {
        if !(a[i] == b[i]) {
            assert(text::texts(a@)[i as int] != text::texts(b@)[i as int]);
            return false;
        }
        i = i + 1;
    }
    assert(text::texts(a@) =~= text::texts(b@));
    true
}

/// Whether `tail` is the end of `whole`.
pub open spec fn ends_with(whole: Seq<Seq<char>>, tail: Seq<Seq<char>>) -> bool {
    tail.len() <= whole.len() && whole.skip(whole.len() - tail.len()) == tail
}

/// The labels joined by full stops.
pub open spec fn join_dots(labels: Seq<Seq<char>>) -> Seq<char>
    decreases labels.len(),
{
    if labels.len() == 0 {
        Seq::empty()
    } else if labels.len() == 1 {
        labels[0]
    } else {
        join_dots(labels.drop_last()) + "."@ + labels.last()
    }
}

/// How a name is written: its labels joined by full stops, the root alone as
/// one full stop.
pub open spec fn name_text(labels: Seq<Seq<char>>) -> Seq<char> {
    if labels.len() == 0 {
        "."@
    } else {
        join_dots(labels)
    }
}

impl DnsName {
    /// The name that a text stands for; `None` where it is no name.
    pub fn from_ascii(s: &str) -> (r: Option<DnsName>)
        ensures
            match r {
                Some(name) => parse_name(s@) == Some(name@),
                None => parse_name(s@) is None,
            },
    {
        let cs = text::chars_of(s);
        let end: usize = if cs.len() > 0 && cs[cs.len() - 1] == '.' {
            cs.len() - 1
        } else {
            cs.len()
        };
        let body = text::chars_range(&cs, 0, end);
        assert(body@ =~= without_root_dot(s@));
        let mut labels: Vec<String> = Vec::new();
        if body.len() == 0 {
            assert(text::texts(labels@) =~= Seq::empty());
            return Some(DnsName { labels });
        }
        let pieces = text::split_chars(&body, '.');
        let ghost all = text::split(body@, '.');
        let mut total: usize = 0;
        let mut i: usize = 0;
        assert(all.take(0) =~= Seq::empty());
        while i < pieces.len()
            invariant
                i <= pieces.len(),
                text::views(pieces@) == all,
                all == text::split(body@, '.'),
                body@ == without_root_dot(s@),
                body.len() > 0,
                labels.len() == i,
                forall|j: int| 0 <= j < i ==> is_label(#[trigger] all[j]),
                forall|j: int| 0 <= j < i ==> labels@[j]@ == text::lower(#[trigger] all[j]),
                total == wire_bytes(all.take(i as int)),
                total < MAX_NAME_WIRE_BYTES,
            decreases pieces.len() - i,
        {
            assert(all[i as int] == pieces@[i as int]@);
            assert(all.take(i + 1).drop_last() =~= all.take(i as int));
            if !label_is_valid(&pieces[i]) {
                return None;
            }
            total = total + pieces[i].len() + 1;
            if total >= MAX_NAME_WIRE_BYTES {
                proof {
                    lemma_wire_grows(all, i + 1);
                }
                return None;
            }
            labels.push(text::to_lower(&text::text_of(&pieces[i])));
            i = i + 1;
        }
        proof {
            assert(all.take(i as int) =~= all);
            assert(text::texts(labels@) =~= lower_all(all));
        }
        Some(DnsName { labels })
    }

    /// The name of the DNS root.
    pub fn root() -> (r: DnsName)
        ensures
            r@ == Seq::<Seq<char>>::empty(),
    {
        let r = DnsName { labels: Vec::new() };
        assert(r@ =~= Seq::empty());
        r
    }

    pub fn copy(&self) -> (r: DnsName)
        ensures
            r@ == self@,
    {
        self.suffix(0)
    }

    /// The name without its first `from` labels.
    pub fn suffix(&self, from: usize) -> (r: DnsName)
        requires
            from <= self@.len(),
        ensures
            r@ == self@.skip(from as int),
    {
        let mut labels: Vec<String> = Vec::new();
        let mut i: usize = from;
        while i < self.labels.len()
            invariant
                from <= i <= self.labels.len(),
                labels.len() == i - from,
                forall|j: int| 0 <= j < i - from ==> labels@[j]@ == self.labels@[from + j]@,
            decreases self.labels.len() - i,
        {
            labels.push(self.labels[i].clone());
            i = i + 1;
        }
        let r = DnsName { labels };
        assert(r@ =~= self@.skip(from as int));
        r
    }

    pub fn same(&self, other: &DnsName) -> (r: bool)
        ensures
            r == (self@ == other@),
    {
        same_labels(&self.labels, &other.labels)
    }

    /// Whether this name lies at or below `parent`.
    pub fn is_at_or_below(&self, parent: &DnsName) -> (r: bool)
        ensures
            r == ends_with(self@, parent@),
    {
        if parent.labels.len() > self.labels.len() {
            return false;
        }
        self.suffix(self.labels.len() - parent.labels.len()).same(parent)
    }

    pub fn to_text(&self) -> (r: String)
        ensures
            r@ == name_text(self@),
    {
        if self.labels.len() == 0 {
            return ".".to_owned();
        }
        let mut out = self.labels[0].clone();
        let mut i: usize = 1;
        assert(self@.take(1) =~= seq![self@[0]]);
        while i < self.labels.len()
            invariant
                1 <= i <= self.labels.len(),
                out@ == join_dots(self@.take(i as int)),
            decreases self.labels.len() - i,
        {
            assert(self@.take(i + 1).drop_last() =~= self@.take(i as int));
            out.append(".");
            out.append(self.labels[i].as_str());
            i = i + 1;
        }
        assert(self@.take(i as int) =~= self@);
        out
    }
}

proof fn lemma_wire_grows(labels: Seq<Seq<char>>, n: int)
    requires
        0 <= n <= labels.len(),
    ensures
        wire_bytes(labels.take(n)) <= wire_bytes(labels),
    decreases labels.len() - n,
{
    if n < labels.len() {
        assert(labels.take(n + 1).drop_last() =~= labels.take(n));
        lemma_wire_grows(labels, n + 1);
    } else {
        assert(labels.take(n) =~= labels);
    }
}

/// Names that Handshake keeps out of its root zone.
pub open spec fn is_reserved(s: Seq<char>) -> bool {
    s == "example"@ || s == "invalid"@ || s == "local"@ || s == "localhost"@ || s == "test"@
}

/// A character of a Handshake name; hyphen and underscore only inside it.
pub open spec fn is_hns_char(c: char, inside: bool) -> bool {
    text::is_digit(c) || 'a' <= c <= 'z' || (inside && (c == '-' || c == '_'))
}

pub open spec fn has_hns_chars(s: Seq<char>) -> bool {
    forall|i: int| 0 <= i < s.len() ==> is_hns_char(#[trigger] s[i], 0 < i < s.len() - 1)
}

/// Whether a label can be a Handshake root, and what is wrong where it cannot.
pub open spec fn hns_label_error(s: Seq<char>) -> Option<NameHashError> {
    if s.len() == 0 {
        Some(NameHashError::Empty)
    } else if s.len() > MAX_LABEL_CHARS {
        Some(NameHashError::TooLong)
    } else if !has_hns_chars(s) {
        Some(NameHashError::InvalidCharacter)
    } else if is_reserved(s) {
        Some(NameHashError::Reserved)
    } else {
        None
    }
}

pub fn check_hns_label(label: &str) -> (r: Option<NameHashError>)
    ensures
        r == hns_label_error(label@),
{
    let cs = text::chars_of(label);
    if cs.len() == 0 {
        return Some(NameHashError::Empty);
    }
    if cs.len() > MAX_LABEL_CHARS {
        return Some(NameHashError::TooLong);
    }
    let mut i: usize = 0;
    while i < cs.len()
        invariant
            i <= cs.len(),
            0 < cs.len() <= MAX_LABEL_CHARS,
            cs@ == label@,
            forall|j: int| 0 <= j < i ==> is_hns_char(#[trigger] label@[j], 0 < j < label@.len() - 1),
        decreases cs.len() - i,
    {
        let c = cs[i];
        let inside = 0 < i && i < cs.len() - 1;
        let plain = ('0' <= c && c <= '9') || ('a' <= c && c <= 'z');
        if !plain && !(inside && (c == '-' || c == '_')) {
            assert(!is_hns_char(label@[i as int], 0 < i < label@.len() - 1));
            return Some(NameHashError::InvalidCharacter);
        }
        i = i + 1;
    }
    if text::same_text(label, "example") || text::same_text(label, "invalid") || text::same_text(label, "local")
        || text::same_text(label, "localhost") || text::same_text(label, "test") {
        return Some(NameHashError::Reserved);
    }
    None
}

/// The text after every leading `prefix` is taken off.
pub open spec fn strip_all(s: Seq<char>, prefix: Seq<char>) -> Seq<char>
    decreases s.len(),
{
    if 0 < prefix.len() && text::occurs_at(s, prefix, 0) {
        strip_all(s.skip(prefix.len() as int), prefix)
    } else {
        s
    }
}

/// The characters that end the host part of an address.
pub open spec fn ends_host(c: char) -> bool {
    c == '/' || c == '?' || c == '#'
}

/// The text up to the first character that ends a host.
pub open spec fn host_prefix(s: Seq<char>) -> Seq<char>
    decreases s.len(),
{
    if s.len() == 0 || ends_host(s[0]) {
        Seq::empty()
    } else {
        seq![s[0]] + host_prefix(s.skip(1))
    }
}

/// The host of an address, without scheme, path and closing full stops.
pub open spec fn host_of(s: Seq<char>) -> Seq<char> {
    text::trim_end_dots(host_prefix(strip_all(strip_all(s, "https://"@), "http://"@)))
}

pub fn strip_prefixes(cs: &Vec<char>, prefix: &str) -> (r: Vec<char>)
    requires
        prefix@.len() > 0,
    ensures
        r@ == strip_all(cs@, prefix@),
{
    let p = text::chars_of(prefix);
    let mut from: usize = 0;
    assert(cs@.skip(0) =~= cs@);
    while text::has_at(cs, &p, from)
        invariant
            p@ == prefix@,
            p.len() > 0,
            from <= cs.len(),
            strip_all(cs@, prefix@) == strip_all(cs@.skip(from as int), prefix@),
        decreases cs.len() - from,
    {
        proof {
            let rest = cs@.skip(from as int);
            assert(rest.subrange(0, p@.len() as int) =~= cs@.subrange(
                from as int,
                from + p@.len(),
            ));
            assert(text::occurs_at(rest, prefix@, 0));
            assert(rest.skip(p@.len() as int) =~= cs@.skip(from + p@.len()));
        }
        from = from + p.len();
    }
    proof {
        let rest = cs@.skip(from as int);
        if text::occurs_at(rest, prefix@, 0) {
            assert(rest.subrange(0, p@.len() as int) =~= cs@.subrange(
                from as int,
                from + p@.len(),
            ));
        }
    }
    let r = text::chars_range(cs, from, cs.len());
    assert(r@ =~= cs@.skip(from as int));
    r
}

pub fn take_host(cs: &Vec<char>) -> (r: Vec<char>)
    ensures
        r@ == host_prefix(cs@),
{
    let mut out: Vec<char> = Vec::new();
    let mut i: usize = 0;
    assert(cs@.skip(0) =~= cs@);
    assert(Seq::<char>::empty() + host_prefix(cs@) =~= host_prefix(cs@));
    while i < cs.len() && cs[i] != '/' && cs[i] != '?' && cs[i] != '#'
        invariant
            i <= cs.len(),
            out@ + host_prefix(cs@.skip(i as int)) == host_prefix(cs@),
        decreases cs.len() - i,
    {
        proof {
            let rest = cs@.skip(i as int);
            assert(rest[0] == cs@[i as int]);
            assert(rest.skip(1) =~= cs@.skip(i + 1));
            assert(out@ + (seq![rest[0]] + host_prefix(rest.skip(1))) =~= out@.push(rest[0])
                + host_prefix(rest.skip(1)));
        }
        out.push(cs[i]);
        i = i + 1;
    }
    proof {
        let rest = cs@.skip(i as int);
        if rest.len() > 0 {
            assert(rest[0] == cs@[i as int]);
        }
        assert(out@ + Seq::<char>::empty() =~= out@);
    }
    out
}

pub fn host_chars(cs: &Vec<char>) -> (r: Vec<char>)
    ensures
        r@ == host_of(cs@),
{
    proof {
        reveal_strlit("https://");
        reveal_strlit("http://");
    }
    let a = strip_prefixes(cs, "https://");
    let b = strip_prefixes(&a, "http://");
    text::without_end_dots(&take_host(&b))
}

/// The outcome of taking the Handshake root label out of an address: the last
/// label of its host, where the host is a name and that label can be a root.
pub open spec fn root_label(input: Seq<char>) -> Result<Seq<char>, ResolverError> {
    match parse_name(host_of(text::trim(input))) {
        None => Err(ResolverError::UnsupportedBackend),
        Some(labels) => if labels.len() == 0 {
            Err(ResolverError::UnsupportedBackend)
        } else {
            match hns_label_error(labels.last()) {
                Some(error) => Err(ResolverError::InvalidName(error)),
                None => Ok(labels.last()),
            }
        },
    }
}

pub fn hns_root_label(input: &str) -> (r: Result<String, ResolverError>)
    ensures
        match r {
            Ok(label) => root_label(input@) == Ok::<_, ResolverError>(label@),
            Err(error) => root_label(input@) == Err::<Seq<char>, _>(error),
        },
{
    let host = host_chars(&text::trimmed(&text::chars_of(input)));
    match DnsName::from_ascii(&text::text_of(&host)) {
        None => Err(ResolverError::UnsupportedBackend),
        Some(name) => {
            if name.labels.len() == 0 {
                return Err(ResolverError::UnsupportedBackend);
            }
            let root = name.labels[name.labels.len() - 1].clone();
            assert(name@.last() == root@);
            match check_hns_label(&root) {
                Some(error) => Err(ResolverError::InvalidName(error)),
                None => Ok(root),
            }
        },
    }
}

proof fn lemma_host_prefix_whole(s: Seq<char>)
    requires
        forall|i: int| 0 <= i < s.len() ==> !ends_host(#[trigger] s[i]),
    ensures
        host_prefix(s) == s,
    decreases s.len(),
{
    if s.len() > 0 {
        let rest = s.skip(1);
        assert forall|i: int| 0 <= i < rest.len() implies !ends_host(#[trigger] rest[i]) by {
            assert(rest[i] == s[i + 1]);
        }
        lemma_host_prefix_whole(rest);
        assert(seq![s[0]] + rest =~= s);
    } else {
        assert(s =~= Seq::empty());
    }
}

/// A Handshake label is its own root label.
pub proof fn law_label_is_its_own_root(label: Seq<char>)
    requires
        hns_label_error(label) is None,
    ensures
        root_label(label) == Ok::<_, ResolverError>(label),
        parse_name(label) == Some(seq![label]),
        text::trim(label) == label,
        host_of(label) == label,
        text::split(label, '.') == seq![label],
{
    assert(forall|i: int| 0 <= i < label.len() ==> is_hns_char(#[trigger] label[i], 0 < i < label.len() - 1));
    assert(is_hns_char(label[0], 0 < 0 < label.len() - 1));
    assert(is_hns_char(label[label.len() - 1], 0 < label.len() - 1 < label.len() - 1));
    assert(text::trim_start(label) == label);
    assert(text::trim_end(label) == label);
    reveal_strlit("https://");
    reveal_strlit("http://");
    assert(!text::occurs_at(label, "https://"@, 0)) by {
        if text::occurs_at(label, "https://"@, 0) {
            assert(label.subrange(0, 8)[6] == label[6]);
        }
    }
    assert(!text::occurs_at(label, "http://"@, 0)) by {
        if text::occurs_at(label, "http://"@, 0) {
            assert(label.subrange(0, 7)[6] == label[6]);
        }
    }
    lemma_host_prefix_whole(label);
    assert(text::trim_end_dots(label) == label);
    assert(host_of(text::trim(label)) == label);
    text::lemma_find_is(label, '.', label.len() as int);
    let labels = text::split(label, '.');
    assert(labels =~= seq![label]);
    assert(labels.drop_last() =~= Seq::empty());
    assert(wire_bytes(labels) == label.len() + 1) by {
        assert(wire_bytes(labels.drop_last()) == 0);
    }
    assert(is_label(label));
    assert(text::lower(label) =~= label);
    assert(lower_all(labels) =~= seq![label]);
}

/// Taking the root label again changes nothing.
pub proof fn law_root_label_is_stable(input: Seq<char>)
    requires
        root_label(input) is Ok,
    ensures
        root_label(root_label(input)->Ok_0) == root_label(input),
{
    law_label_is_its_own_root(root_label(input)->Ok_0);
}

/// The last label of a host, where it has more than one.
pub open spec fn last_label(host: Seq<char>) -> Option<Seq<char>> {
    let pieces = text::split(text::trim_end_dots(host), '.');
    if pieces.len() > 1 {
        Some(pieces.last())
    } else {
        None
    }
}

/// The top-level domains of the ICANN root that are told apart without a lookup.
pub open spec fn common_icann_tlds() -> Seq<Seq<char>> {
    seq![
        "ai"@, "app"@, "au"@, "biz"@, "blog"@, "br"@, "ca"@, "ch"@, "cloud"@, "cn"@, "co"@,
        "com"@, "de"@, "dev"@, "edu"@, "es"@, "eu"@, "fr"@, "gov"@, "id"@, "in"@, "info"@,
        "int"@, "io"@, "it"@, "jp"@, "me"@, "mil"@, "name"@, "net"@, "nl"@, "no"@,
        "online"@, "org"@, "page"@, "pl"@, "ru"@, "se"@, "site"@, "store"@, "tech"@, "to"@,
        "tv"@, "uk"@, "us"@, "xyz"@,
    ]
}

/// Whether a host ends in one of the common ICANN top-level domains.
pub open spec fn has_common_icann_tld(host: Seq<char>) -> bool {
    match last_label(host) {
        Some(tld) => common_icann_tlds().contains(text::lower(tld)),
        None => false,
    }
}

pub fn uses_common_icann_tld(host: &str) -> (r: bool)
    ensures
        r == has_common_icann_tld(host@),
{
    let pieces = text::split_chars(&text::without_end_dots(&text::chars_of(host)), '.');
    if pieces.len() <= 1 {
        return false;
    }
    let tld = text::to_lower(&text::text_of(&pieces[pieces.len() - 1]));
    let known: [&str; 46] = [
        "ai", "app", "au", "biz", "blog", "br", "ca", "ch", "cloud", "cn", "co", "com", "de",
        "dev", "edu", "es", "eu", "fr", "gov", "id", "in", "info", "int", "io", "it", "jp", "me",
        "mil", "name", "net", "nl", "no", "online", "org", "page", "pl", "ru", "se", "site",
        "store", "tech", "to", "tv", "uk", "us", "xyz",
    ];
    let ghost all = common_icann_tlds();
    assert(text::views(pieces@).last() == pieces@[pieces@.len() - 1]@);
    assert(last_label(host@) matches Some(last) && tld@ == text::lower(last));
    assert(forall|j: int| 0 <= j < 46 ==> known@[j]@ == #[trigger] all[j]);
    let mut i: usize = 0;
    while i < 46
        invariant
            i <= 46,
            all == common_icann_tlds(),
            all.len() == 46,
            last_label(host@) matches Some(last) && tld@ == text::lower(last),
            forall|j: int| 0 <= j < 46 ==> known@[j]@ == #[trigger] all[j],
            forall|j: int| 0 <= j < i ==> #[trigger] all[j] != tld@,
        decreases 46 - i,
    {
        if text::same_text(&tld, known[i]) {
            assert(all[i as int] == tld@);
            return true;
        }
        i = i + 1;
    }
    false
}

/// What typed input is taken for.
pub open spec fn class_of(input: Seq<char>) -> NameClass {
    let t = text::trim(input);
    let host = host_of(t);
    if t.len() == 0 || (exists|i: int| 0 <= i < t.len() && text::is_space(#[trigger] t[i])) {
        NameClass::Search
    } else if host.len() == 0 {
        NameClass::Search
    } else if root_label(host) is Ok && !has_common_icann_tld(host) {
        NameClass::Hns
    } else {
        NameClass::Icann
    }
}

pub fn classify_name(input: &str) -> (r: NameClass)
    ensures
        r == class_of(input@),
{
    let t = text::trimmed(&text::chars_of(input));
    if t.len() == 0 {
        return NameClass::Search;
    }
    let mut i: usize = 0;
    while i < t.len()
        invariant
            i <= t.len(),
            t@ == text::trim(input@),
            forall|j: int| 0 <= j < i ==> !text::is_space(#[trigger] t@[j]),
        decreases t.len() - i,
    {
        if text::char_is_space(t[i]) {
            assert(text::is_space(text::trim(input@)[i as int]));
            return NameClass::Search;
        }
        i = i + 1;
    }
    let host = text::text_of(&host_chars(&t));
    if host.as_str().is_empty() {
        NameClass::Search
    } else if hns_root_label(&host).is_ok() && !uses_common_icann_tld(&host) {
        NameClass::Hns
    } else {
        NameClass::Icann
    }
}

/// The root that a host is filed under in traces: the text behind its last full stop.
pub open spec fn trace_root(host: Seq<char>) -> Seq<char> {
    text::split(text::trim_end_dots(text::trim(host)), '.').last()
}

pub fn hns_trace_root(host: &str) -> (r: String)
    ensures
        r@ == trace_root(host@),
{
    let pieces = text::split_chars(&text::without_end_dots(&text::trimmed(&text::chars_of(host))), '.');
    text::text_of(&pieces[pieces.len() - 1])
}

/// A Handshake label alone is a Handshake name: it is never searched for, nor
/// taken for a name of the ICANN root.
pub proof fn law_label_alone_is_hns(label: Seq<char>)
    requires
        hns_label_error(label) is None,
    ensures
        class_of(label) == NameClass::Hns,
{
    law_label_is_its_own_root(label);
    assert(forall|i: int|
        0 <= i < label.len() ==> is_hns_char(#[trigger] label[i], 0 < i < label.len() - 1));
    assert(is_hns_char(label[label.len() - 1], 0 < label.len() - 1 < label.len() - 1));
    assert(text::trim_end_dots(label) == label);
    assert(last_label(label) is None);
}

/// Only a name whose last label can be a Handshake root is taken for a Handshake
/// name.
pub proof fn law_hns_names_have_a_root(input: Seq<char>)
    requires
        class_of(input) == NameClass::Hns,
    ensures
        root_label(host_of(text::trim(input))) is Ok,
        !has_common_icann_tld(host_of(text::trim(input))),
{
}

/// Whether labels can make up a written name: each from 1 to 63 visible ASCII
/// characters other than the full stop, no capital among them, and 255 bytes on
/// the wire in all.
pub open spec fn are_plain_labels(labels: Seq<Seq<char>>) -> bool {
    &&& forall|i: int|
        0 <= i < labels.len() ==> 1 <= (#[trigger] labels[i]).len() <= 63 && is_plain_label(labels[i])
    &&& wire_bytes(labels) + 1 <= 255
}

pub open spec fn is_plain_label(label: Seq<char>) -> bool {
    forall|k: int|
        0 <= k < label.len() ==> '!' <= (#[trigger] label[k]) <= '~' && label[k] != '.' && !('A'
            <= label[k] <= 'Z')
}

proof fn lemma_joined_splits(labels: Seq<Seq<char>>, more: Seq<char>)
    requires
        labels.len() > 0,
        forall|i: int| 0 <= i < labels.len() ==> !(#[trigger] labels[i]).contains('.'),
        !more.contains('.'),
    ensures
        text::split(join_dots(labels), '.') == labels,
        text::split(join_dots(labels) + "."@ + more, '.') == labels.push(more),
    decreases labels.len(),
{
    reveal_strlit(".");
    reveal_with_fuel(join_dots, 2);
    if labels.len() == 1 {
        text::law_split_undoes_joining(labels[0], more, '.');
        text::law_split_undoes_joining(more, Seq::empty(), '.');
        assert(seq![labels[0]] =~= labels);
        assert(join_dots(labels) + "."@ + more =~= labels[0] + seq!['.'] + more);
        assert(seq![labels[0]] + seq![more] =~= labels.push(more));
    } else {
        let front = labels.drop_last();
        assert forall|i: int| 0 <= i < front.len() implies !(#[trigger] front[i]).contains('.') by {
            assert(front[i] == labels[i]);
        }
        assert(!labels[labels.len() - 1].contains('.'));
        lemma_joined_splits(front, labels.last());
        assert(front.push(labels.last()) =~= labels);
        lemma_split_at_end(join_dots(labels), more);
    }
}

proof fn lemma_split_at_end(s: Seq<char>, more: Seq<char>)
    requires
        !more.contains('.'),
    ensures
        text::split(s + "."@ + more, '.') == text::split(s, '.').push(more),
    decreases s.len(),
{
    reveal_strlit(".");
    text::lemma_find(s, '.');
    let at = text::find(s, '.') as int;
    let whole = s + "."@ + more;
    text::law_split_undoes_joining(more, Seq::empty(), '.');
    if at < s.len() {
        let rest = s.skip(at + 1);
        lemma_split_at_end(rest, more);
        text::lemma_find_is(whole, '.', at);
        assert(whole.take(at) =~= s.take(at));
        assert(whole.skip(at + 1) =~= rest + "."@ + more);
        assert(seq![s.take(at)] + text::split(rest, '.').push(more) =~= (seq![s.take(at)]
            + text::split(rest, '.')).push(more));
    } else {
        assert(!s.contains('.'));
        text::law_split_undoes_joining(s, more, '.');
        assert(whole =~= s + seq!['.'] + more);
        assert(seq![s] + seq![more] =~= seq![s].push(more));
    }
}

proof fn lemma_joined_end(labels: Seq<Seq<char>>)
    requires
        labels.len() > 0,
        forall|i: int| 0 <= i < labels.len() ==> (#[trigger] labels[i]).len() > 0,
    ensures
        join_dots(labels).len() > 0,
        join_dots(labels).last() == labels.last().last(),
{
    reveal_strlit(".");
    reveal_with_fuel(join_dots, 2);
    assert(labels[labels.len() - 1].len() > 0);
}

/// A name is read as it was written: its labels come back, in order and
/// unchanged, with a closing full stop or without; capitals count as small
/// letters.
pub proof fn law_names_read_back(labels: Seq<Seq<char>>)
    requires
        are_plain_labels(labels),
    ensures
        parse_name(name_text(labels)) == Some(labels),
        labels.len() > 0 ==> parse_name(name_text(labels) + "."@) == Some(labels),
{
    reveal_strlit(".");
    let written = name_text(labels);
    if labels.len() == 0 {
        assert("."@.drop_last() =~= Seq::empty());
        assert(without_root_dot("."@).len() == 0);
    } else {
        assert forall|i: int| 0 <= i < labels.len() implies !(#[trigger] labels[i]).contains('.')
            && is_label(labels[i]) && text::lower(labels[i]) == labels[i] && labels[i].len() > 0 by {
            assert(is_plain_label(labels[i]));
            if labels[i].contains('.') {
                let k = choose|k: int| 0 <= k < labels[i].len() && labels[i][k] == '.';
                assert(labels[i][k] != '.');
            }
            assert forall|k: int| 0 <= k < labels[i].len() implies is_label_char(labels[i][k]) by {
                assert('!' <= labels[i][k] <= '~');
            }
            assert(text::lower(labels[i]) =~= labels[i]);
        }
        lemma_joined_splits(labels, Seq::empty());
        lemma_joined_end(labels);
        let last = labels[labels.len() - 1];
        assert(is_plain_label(last));
        assert(last[last.len() - 1] != '.');
        assert(without_root_dot(written) == written);
        assert((written + "."@).drop_last() =~= written);
        assert(lower_all(labels) =~= labels);
    }
}

/// A name that is read has labels of 1 to 63 visible ASCII characters other than
/// the full stop, in small letters, and fits into 255 bytes.
pub proof fn law_read_names_are_plain(s: Seq<char>)
    requires
        parse_name(s) is Some,
    ensures
        forall|i: int|
            0 <= i < parse_name(s)->0.len() ==> 1 <= (#[trigger] parse_name(s)->0[i]).len() <= 63
                && is_plain_label(parse_name(s)->0[i]),
{
    let labels = text::split(without_root_dot(s), '.');
    let read = parse_name(s)->0;
    assert forall|i: int| 0 <= i < read.len() implies 1 <= (#[trigger] read[i]).len() <= 63
        && is_plain_label(read[i]) by {
        assert(is_label(labels[i]));
        assert(read[i] == text::lower(labels[i]));
        assert forall|k: int| 0 <= k < read[i].len() implies '!' <= (#[trigger] read[i][k]) <= '~'
            && read[i][k] != '.' && !('A' <= read[i][k] <= 'Z') by {
            assert(is_label_char(labels[i][k]));
        }
    }
}

pub proof fn lemma_host_prefix(host: Seq<char>, rest: Seq<char>)
    requires
        forall|i: int|
            0 <= i < host.len() ==> (#[trigger] host[i]) != '/' && host[i] != '?' && host[i] != '#',
        rest.len() > 0 ==> rest[0] == '/' || rest[0] == '?' || rest[0] == '#',
    ensures
        host_prefix(host + rest) == host,
    decreases host.len(),
{
    let whole = host + rest;
    if host.len() > 0 {
        assert(whole[0] == host[0]);
        assert(whole.skip(1) =~= host.skip(1) + rest);
        assert forall|i: int| 0 <= i < host.skip(1).len() implies (#[trigger] host.skip(1)[i]) != '/'
            && host.skip(1)[i] != '?' && host.skip(1)[i] != '#' by {
            assert(host.skip(1)[i] == host[i + 1]);
        }
        lemma_host_prefix(host.skip(1), rest);
        assert(seq![host[0]] + host.skip(1) =~= host);
    } else {
        assert(whole =~= rest);
        assert(host =~= Seq::empty());
    }
}

/// The host of an address is what stands between the scheme and the path, the
/// query or the fragment; closing full stops do not count, and neither does the
/// lack of a scheme.
pub proof fn law_host_of_an_address(host: Seq<char>, rest: Seq<char>)
    requires
        forall|i: int|
            0 <= i < host.len() ==> (#[trigger] host[i]) != '/' && host[i] != '?' && host[i] != '#'
                && host[i] != ':',
        host.len() > 0 && host.last() != '.',
        rest.len() > 0 ==> rest[0] == '/' || rest[0] == '?' || rest[0] == '#',
    ensures
        host_of(host + rest) == host,
        host_of(host + "."@ + rest) == host,
        host_of("https://"@ + host + rest) == host,
        host_of("http://"@ + host + rest) == host,
{
    reveal_strlit("https://");
    reveal_strlit("http://");
    reveal_strlit(".");
    let plain = host + rest;
    let dotted = host + "."@ + rest;
    lemma_no_scheme(host, rest);
    lemma_no_scheme(host + "."@, rest);
    assert("https://"@ + host + rest =~= "https://"@ + plain);
    assert("http://"@ + host + rest =~= "http://"@ + plain);
    assert(("https://"@ + plain).subrange(0, 8) =~= "https://"@);
    assert(("https://"@ + plain).skip(8) =~= plain);
    assert(("http://"@ + plain).subrange(0, 7) =~= "http://"@);
    assert(("http://"@ + plain).skip(7) =~= plain);
    assert(!text::occurs_at("http://"@ + plain, "https://"@, 0)) by {
        if text::occurs_at("http://"@ + plain, "https://"@, 0) {
            assert(("http://"@ + plain).subrange(0, 8)[4] == "https://"@[4]);
        }
    }
    lemma_host_prefix(host, rest);
    assert forall|i: int| 0 <= i < (host + "."@).len() implies (#[trigger] (host + "."@)[i]) != '/'
        && (host + "."@)[i] != '?' && (host + "."@)[i] != '#' by {
        if i < host.len() {
            assert((host + "."@)[i] == host[i]);
        }
    }
    lemma_host_prefix(host + "."@, rest);
    reveal_with_fuel(text::trim_end_dots, 2);
    assert((host + "."@).drop_last() =~= host);
}

proof fn lemma_no_scheme(host: Seq<char>, rest: Seq<char>)
    requires
        forall|i: int| 0 <= i < host.len() ==> (#[trigger] host[i]) != ':' && host[i] != '/',
        rest.len() > 0 ==> rest[0] == '/' || rest[0] == '?' || rest[0] == '#',
    ensures
        strip_all(host + rest, "https://"@) == host + rest,
        strip_all(host + rest, "http://"@) == host + rest,
{
    reveal_strlit("https://");
    reveal_strlit("http://");
    let whole = host + rest;
    if text::occurs_at(whole, "https://"@, 0) {
        let front = whole.subrange(0, 8);
        assert(front[5] == ':');
        assert(whole[5] == ':');
        if host.len() <= 5 {
            assert(whole[host.len() as int] == rest[0]);
            assert(front[host.len() as int] == "https://"@[host.len() as int]);
        } else {
            assert(whole[5] == host[5]);
        }
    }
    if text::occurs_at(whole, "http://"@, 0) {
        let front = whole.subrange(0, 7);
        assert(front[4] == ':');
        assert(whole[4] == ':');
        if host.len() <= 4 {
            assert(whole[host.len() as int] == rest[0]);
            assert(front[host.len() as int] == "http://"@[host.len() as int]);
        } else {
            assert(whole[4] == host[4]);
        }
    }
}

/// The root of a host is its last label, whatever stands before it.
pub proof fn law_root_is_the_last_label(labels: Seq<Seq<char>>)
    requires
        are_plain_labels(labels),
        labels.len() > 0,
        hns_label_error(labels.last()) is None,
        host_of(text::trim(name_text(labels))) == name_text(labels),
    ensures
        root_label(name_text(labels)) == Ok::<_, ResolverError>(labels.last()),
{
    law_names_read_back(labels);
}

/// A Handshake root is 1 to 63 small letters, digits, hyphens and underscores, the
/// last two not at its ends, and none of the five reserved names.
pub proof fn law_handshake_labels(s: Seq<char>)
    ensures
        hns_label_error(s) is None <==> {
            &&& 1 <= s.len() <= 63
            &&& forall|i: int|
                0 <= i < s.len() ==> ('a' <= (#[trigger] s[i]) <= 'z' || '0' <= s[i] <= '9' || ((
                s[i] == '-' || s[i] == '_') && i != 0 && i != s.len() - 1))
            &&& s != "example"@ && s != "invalid"@ && s != "local"@ && s != "localhost"@
                && s != "test"@
        },
{
    if has_hns_chars(s) {
        assert forall|i: int| 0 <= i < s.len() implies ('a' <= (#[trigger] s[i]) <= 'z' || '0'
            <= s[i] <= '9' || ((s[i] == '-' || s[i] == '_') && i != 0 && i != s.len() - 1)) by {
            assert(is_hns_char(s[i], 0 < i < s.len() - 1));
        }
    }
}

/// The top-level domains that are taken for those of the ICANN root, in any case.
pub proof fn law_which_domains_are_common(host: Seq<char>, last: Seq<char>, tld: Seq<char>)
    requires
        last_label(host) == Some(last),
        tld == text::lower(last),
    ensures
        has_common_icann_tld(host) <==> (tld == "ai"@
            || tld == "app"@
            || tld == "au"@
            || tld == "biz"@
            || tld == "blog"@
            || tld == "br"@
            || tld == "ca"@
            || tld == "ch"@
            || tld == "cloud"@
            || tld == "cn"@
            || tld == "co"@
            || tld == "com"@
            || tld == "de"@
            || tld == "dev"@
            || tld == "edu"@
            || tld == "es"@
            || tld == "eu"@
            || tld == "fr"@
            || tld == "gov"@
            || tld == "id"@
            || tld == "in"@
            || tld == "info"@
            || tld == "int"@
            || tld == "io"@
            || tld == "it"@
            || tld == "jp"@
            || tld == "me"@
            || tld == "mil"@
            || tld == "name"@
            || tld == "net"@
            || tld == "nl"@
            || tld == "no"@
            || tld == "online"@
            || tld == "org"@
            || tld == "page"@
            || tld == "pl"@
            || tld == "ru"@
            || tld == "se"@
            || tld == "site"@
            || tld == "store"@
            || tld == "tech"@
            || tld == "to"@
            || tld == "tv"@
            || tld == "uk"@
            || tld == "us"@
            || tld == "xyz"@),
{
    let all = common_icann_tlds();
    assert(all.len() == 46);
    assert(all[0] == "ai"@);
    assert(all[1] == "app"@);
    assert(all[2] == "au"@);
    assert(all[3] == "biz"@);
    assert(all[4] == "blog"@);
    assert(all[5] == "br"@);
    assert(all[6] == "ca"@);
    assert(all[7] == "ch"@);
    assert(all[8] == "cloud"@);
    assert(all[9] == "cn"@);
    assert(all[10] == "co"@);
    assert(all[11] == "com"@);
    assert(all[12] == "de"@);
    assert(all[13] == "dev"@);
    assert(all[14] == "edu"@);
    assert(all[15] == "es"@);
    assert(all[16] == "eu"@);
    assert(all[17] == "fr"@);
    assert(all[18] == "gov"@);
    assert(all[19] == "id"@);
    assert(all[20] == "in"@);
    assert(all[21] == "info"@);
    assert(all[22] == "int"@);
    assert(all[23] == "io"@);
    assert(all[24] == "it"@);
    assert(all[25] == "jp"@);
    assert(all[26] == "me"@);
    assert(all[27] == "mil"@);
    assert(all[28] == "name"@);
    assert(all[29] == "net"@);
    assert(all[30] == "nl"@);
    assert(all[31] == "no"@);
    assert(all[32] == "online"@);
    assert(all[33] == "org"@);
    assert(all[34] == "page"@);
    assert(all[35] == "pl"@);
    assert(all[36] == "ru"@);
    assert(all[37] == "se"@);
    assert(all[38] == "site"@);
    assert(all[39] == "store"@);
    assert(all[40] == "tech"@);
    assert(all[41] == "to"@);
    assert(all[42] == "tv"@);
    assert(all[43] == "uk"@);
    assert(all[44] == "us"@);
    assert(all[45] == "xyz"@);
    if all.contains(tld) {
        let k = choose|k: int| 0 <= k < all.len() && all[k] == tld;
        assert(0 <= k < 46);
    }
}

/// How typed input is taken: with a space inside it is searched for, a host under a
/// common top-level domain is one of the ICANN root, and any other with a Handshake
/// root is a Handshake name.
pub proof fn law_how_input_is_taken(input: Seq<char>)
    requires
        text::trim(input).len() > 0,
        host_of(text::trim(input)).len() > 0,
    ensures
        (exists|i: int|
            0 <= i < text::trim(input).len() && text::is_space(#[trigger] text::trim(input)[i]))
            <==> class_of(input) == NameClass::Search,
        class_of(input) != NameClass::Search && has_common_icann_tld(host_of(text::trim(input)))
            ==> class_of(input) == NameClass::Icann,
        class_of(input) != NameClass::Search && !has_common_icann_tld(host_of(text::trim(input)))
            && root_label(host_of(text::trim(input))) is Ok ==> class_of(input) == NameClass::Hns,
        class_of(input) == NameClass::Hns ==> root_label(host_of(text::trim(input))) is Ok,
{
}

/// On the wire a label takes its characters and one byte for its length.
pub proof fn law_bytes_on_the_wire(labels: Seq<Seq<char>>, label: Seq<char>)
    ensures
        wire_bytes(Seq::empty()) == 0,
        wire_bytes(labels.push(label)) == wire_bytes(labels) + 1 + label.len(),
{
    assert(labels.push(label).drop_last() =~= labels);
}

} // verus!
