//! Alternative services: what an origin offers besides HTTP/1.1.
use crate::text;
use crate::transport::types;
use crate::transport::types::{Header, HeaderView, OriginProtocol, OriginRequest, RequestView};
use vstd::prelude::*;
use vstd::string::*;

verus! {

/// The longest that an offer is remembered, in seconds.
pub const MAX_ALT_SVC_AGE_SECS: u64 = 86_400;

/// An offered protocol on the origin's own port, up to a point in time in
/// milliseconds.
#[derive(Clone, Copy, Debug, PartialEq, Eq, Structural)]
pub struct AltSvcEndpoint {
    pub protocol: OriginProtocol,
    pub port: u16,
    pub expires_at: u64,
}

/// The port of an offered authority: the origin's own where none is named.
pub open spec fn authority_port(authority: Seq<char>, default_port: u16) -> Option<u16> {
    let digits = if authority.len() == 0 {
        None
    } else if authority[0] == ':' {
        Some(authority.skip(1))
    } else {
        let at = text::find_last(authority, ':');
        if at < authority.len() {
            Some(authority.skip(at as int + 1))
        } else {
            None
        }
    };
    if authority.len() == 0 {
        Some(default_port)
    } else {
        match digits {
            None => None,
            Some(digits) => match text::parsed_number(digits, 10, 65_535) {
                Some(port) => Some(port as u16),
                None => None,
            },
        }
    }
}

pub fn alt_svc_authority_port(authority: &Vec<char>, default_port: u16) -> (r: Option<u16>)
    ensures
        r == authority_port(authority@, default_port),
{
    if authority.len() == 0 {
        return Some(default_port);
    }
    let from: usize = if authority[0] == ':' {
        1
    } else {
        let at: usize = text::find_last_char(authority, ':');
        if at >= authority.len() {
            return None;
        }
        at + 1
    };
    let digits = text::chars_range(authority, from, authority.len());
    assert(digits@ =~= authority@.skip(from as int));
    match text::parse_number(&digits, 10, 65_535) {
        Some(port) => Some(port as u16),
        None => None,
    }
}

/// A text without the quotes in front of it.
pub open spec fn unquoted_start(s: Seq<char>) -> Seq<char>
    decreases s.len(),
{
    if s.len() > 0 && s[0] == '"' {
        unquoted_start(s.skip(1))
    } else {
        s
    }
}

/// A text without the quotes behind it.
pub open spec fn unquoted_end(s: Seq<char>) -> Seq<char>
    decreases s.len(),
{
    if s.len() > 0 && s.last() == '"' {
        unquoted_end(s.drop_last())
    } else {
        s
    }
}

pub open spec fn unquoted(s: Seq<char>) -> Seq<char> {
    unquoted_end(unquoted_start(s))
}

fn without_quotes(cs: &Vec<char>) -> (r: Vec<char>)
    ensures
        r@ == unquoted(cs@),
{
    let mut from: usize = 0;
    assert(cs@.skip(0) =~= cs@);
    while from < cs.len() && cs[from] == '"'
        invariant
            from <= cs@.len(),
            unquoted_start(cs@) == unquoted_start(cs@.skip(from as int)),
        decreases cs@.len() - from,
    {
        assert(cs@.skip(from as int).skip(1) =~= cs@.skip(from + 1));
        from = from + 1;
    }
    let ghost front = cs@.skip(from as int);
    assert(unquoted_start(cs@) == front);
    let mut to: usize = cs.len();
    assert(front.take(to - from) =~= front);
    while to > from && cs[to - 1] == '"'
        invariant
            from <= to <= cs@.len(),
            front == cs@.skip(from as int),
            unquoted_end(front) == unquoted_end(front.take(to - from)),
        decreases to,
    {
        assert(front.take(to - from).drop_last() =~= front.take(to - from - 1));
        to = to - 1;
    }
    let r = text::chars_range(cs, from, to);
    assert(r@ =~= front.take(to - from));
    r
}

/// The age that a parameter gives, if it gives one.
pub open spec fn age_of(param: Seq<char>) -> Option<nat> {
    let param = text::trim(param);
    let at = text::find(param, '=');
    if at < param.len() && text::same_ignoring_case(text::trim(param.take(at as int)), "ma"@) {
        text::parsed_number(
            unquoted(text::trim(param.skip(at as int + 1))),
            10,
            u64::MAX as nat,
        )
    } else {
        None
    }
}

fn param_age(param: &Vec<char>) -> (r: Option<u64>)
    ensures
        match r {
            Some(age) => age_of(param@) == Some(age as nat),
            None => age_of(param@) is None,
        },
{
    let param = text::trimmed(param);
    let at: usize = text::find_char(&param, '=');
    if at >= param.len() {
        return None;
    }
    let name = text::chars_range(&param, 0, at);
    assert(name@ =~= param@.take(at as int));
    let name = text::trimmed(&name);
    let name = text::text_of(&name);
    if !text::eq_ignore_case(name.as_str(), "ma") {
        return None;
    }
    let value = text::chars_range(&param, at + 1, param.len());
    assert(value@ =~= param@.skip(at + 1));
    let value = text::trimmed(&value);
    let value = without_quotes(&value);
    text::parse_number(&value, 10, u64::MAX)
}

/// The first age among the parameters.
pub open spec fn first_age(params: Seq<Seq<char>>) -> Option<nat>
    decreases params.len(),
{
    if params.len() == 0 {
        None
    } else {
        match age_of(params[0]) {
            Some(age) => Some(age),
            None => first_age(params.skip(1)),
        }
    }
}

pub open spec fn max_age_of(params: Seq<char>) -> Option<nat> {
    first_age(text::split(params, ';'))
}

pub fn alt_svc_max_age(params: &Vec<char>) -> (r: Option<u64>)
    ensures
        match r {
            Some(age) => max_age_of(params@) == Some(age as nat),
            None => max_age_of(params@) is None,
        },
{
    let parts = text::split_chars(params, ';');
    let ghost all = text::split(params@, ';');
    assert(text::views(parts@).len() == parts@.len());
    assert(all.skip(0) =~= all);
    let mut i: usize = 0;
    while i < parts.len()
        invariant
            i <= parts@.len(),
            all == text::split(params@, ';'),
            text::views(parts@) == all,
            all.len() == parts@.len(),
            first_age(all) == first_age(all.skip(i as int)),
        decreases parts@.len() - i,
    {
        assert(text::views(parts@)[i as int] == parts@[i as int]@);
        assert(all.skip(i as int).skip(1) =~= all.skip(i + 1));
        if let Some(age) = param_age(&parts[i]) {
            return Some(age);
        }
        i = i + 1;
    }
    None
}

pub open spec fn rank(protocol: OriginProtocol) -> int {
    match protocol {
        OriginProtocol::Http3 => 3,
        OriginProtocol::Http2 => 2,
        OriginProtocol::Http11 => 1,
    }
}

pub fn protocol_rank(protocol: OriginProtocol) -> (r: u8)
    ensures
        r == rank(protocol),
{
    match protocol {
        OriginProtocol::Http3 => 3,
        OriginProtocol::Http2 => 2,
        OriginProtocol::Http11 => 1,
    }
}

/// One of the services that a header lists.
#[derive(Clone, Copy, Debug, PartialEq, Eq, Structural)]
pub enum Alternative {
    /// It names no service.
    Malformed,
    /// It is of no use here.
    Skipped,
    /// A protocol on the origin's port, for so many seconds.
    Offered(OriginProtocol, u64),
}

/// The protocol that an alternative's name stands for.
pub open spec fn offered_protocol(name: Seq<char>) -> Option<OriginProtocol> {
    let low = text::lower(text::trim(name));
    if low == "h3"@ || text::occurs_at(low, "h3-"@, 0) {
        Some(OriginProtocol::Http3)
    } else if low == "h2"@ {
        Some(OriginProtocol::Http2)
    } else {
        None
    }
}

fn parse_protocol(name: &Vec<char>) -> (r: Option<OriginProtocol>)
    ensures
        r == offered_protocol(name@),
{
    let name = text::trimmed(name);
    let name = text::text_of(&name);
    let low = text::to_lower(name.as_str());
    let cs = text::chars_of(low.as_str());
    let draft = text::chars_of("h3-");
    if text::same_text(low.as_str(), "h3") || text::has_at(&cs, &draft, 0) {
        Some(OriginProtocol::Http3)
    } else if text::same_text(low.as_str(), "h2") {
        Some(OriginProtocol::Http2)
    } else {
        None
    }
}

/// What is offered in quotes after the name: an authority with the origin's
/// port, and an age.
pub open spec fn offered_age(rest: Seq<char>, request_port: u16) -> Option<u64> {
    let authority = text::trim_start(rest);
    let inner = authority.skip(1);
    let quote = text::find(inner, '"');
    if authority.len() == 0 || authority[0] != '"' || quote >= inner.len() {
        None
    } else if authority_port(inner.take(quote as int), request_port) != Some(request_port) {
        None
    } else {
        let age = match max_age_of(inner.skip(quote as int + 1)) {
            Some(age) => age,
            None => MAX_ALT_SVC_AGE_SECS as nat,
        };
        if age == 0 {
            None
        } else if age < MAX_ALT_SVC_AGE_SECS {
            Some(age as u64)
        } else {
            Some(MAX_ALT_SVC_AGE_SECS)
        }
    }
}

fn parse_offer(rest: &Vec<char>, request_port: u16) -> (r: Option<u64>)
    ensures
        r == offered_age(rest@, request_port),
{
    let mut from: usize = 0;
    assert(rest@.skip(0) =~= rest@);
    while from < rest.len() && text::char_is_space(rest[from])
        invariant
            from <= rest@.len(),
            text::trim_start(rest@) == text::trim_start(rest@.skip(from as int)),
        decreases rest@.len() - from,
    {
        assert(rest@.skip(from as int).skip(1) =~= rest@.skip(from + 1));
        from = from + 1;
    }
    let ghost authority = text::trim_start(rest@);
    assert(authority == rest@.skip(from as int));
    if from >= rest.len() || rest[from] != '"' {
        return None;
    }
    let inner = text::chars_range(rest, from + 1, rest.len());
    assert(inner@ =~= authority.skip(1));
    let quote: usize = text::find_char(&inner, '"');
    if quote >= inner.len() {
        return None;
    }
    let value = text::chars_range(&inner, 0, quote);
    assert(value@ =~= inner@.take(quote as int));
    match alt_svc_authority_port(&value, request_port) {
        Some(port) if port == request_port => {},
        _ => {
            return None;
        },
    }
    let params = text::chars_range(&inner, quote + 1, inner.len());
    assert(params@ =~= inner@.skip(quote + 1));
    let age: u64 = match alt_svc_max_age(&params) {
        Some(age) => age,
        None => MAX_ALT_SVC_AGE_SECS,
    };
    if age == 0 {
        None
    } else if age < MAX_ALT_SVC_AGE_SECS {
        Some(age)
    } else {
        Some(MAX_ALT_SVC_AGE_SECS)
    }
}

pub open spec fn alternative_of(alternative: Seq<char>, request_port: u16) -> Alternative {
    let alternative = text::trim(alternative);
    let at = text::find(alternative, '=');
    if at >= alternative.len() {
        Alternative::Malformed
    } else {
        match (
            offered_protocol(alternative.take(at as int)),
            offered_age(alternative.skip(at as int + 1), request_port),
        ) {
            (Some(protocol), Some(age)) => Alternative::Offered(protocol, age),
            _ => Alternative::Skipped,
        }
    }
}

fn parse_alternative(alternative: &Vec<char>, request_port: u16) -> (r: Alternative)
    ensures
        r == alternative_of(alternative@, request_port),
{
    let alternative = text::trimmed(alternative);
    let at: usize = text::find_char(&alternative, '=');
    if at >= alternative.len() {
        return Alternative::Malformed;
    }
    let name = text::chars_range(&alternative, 0, at);
    assert(name@ =~= alternative@.take(at as int));
    let rest = text::chars_range(&alternative, at + 1, alternative.len());
    assert(rest@ =~= alternative@.skip(at + 1));
    match (parse_protocol(&name), parse_offer(&rest, request_port)) {
        (Some(protocol), Some(age)) => Alternative::Offered(protocol, age),
        _ => Alternative::Skipped,
    }
}

/// A protocol and for how many seconds it is offered.
#[derive(Clone, Copy, Debug, PartialEq, Eq, Structural)]
pub struct ServiceOffer {
    pub protocol: OriginProtocol,
    pub age: u64,
}

/// The best offer so far.
pub type Offer = Option<ServiceOffer>;

/// The better of the best offer so far and another: the first of the highest
/// protocol.
pub open spec fn better(best: Offer, alternative: Alternative) -> Offer {
    match alternative {
        Alternative::Offered(protocol, age) => if best is None || rank(protocol) > rank(
            best->0.protocol,
        ) {
            Some(ServiceOffer { protocol, age })
        } else {
            best
        },
        _ => best,
    }
}

/// The best offer in the first `n` alternatives after `best`; none at all if
/// one is malformed.
pub open spec fn best_of(best: Offer, alternatives: Seq<Seq<char>>, n: nat, port: u16) -> Option<
    Offer,
>
    decreases n,
{
    if n == 0 {
        Some(best)
    } else {
        match best_of(best, alternatives, (n - 1) as nat, port) {
            None => None,
            Some(so_far) => match alternative_of(alternatives[n - 1], port) {
                Alternative::Malformed => None,
                alternative => Some(better(so_far, alternative)),
            },
        }
    }
}

/// The best offer in the first `n` values; none at all if one is malformed.
pub open spec fn best_in(values: Seq<Seq<char>>, n: nat, port: u16) -> Option<Offer>
    decreases n,
{
    if n == 0 {
        Some(None)
    } else {
        match best_in(values, (n - 1) as nat, port) {
            None => None,
            Some(best) => {
                let alternatives = text::split(values[n - 1], ',');
                best_of(best, alternatives, alternatives.len(), port)
            },
        }
    }
}

proof fn lemma_best_of_stays_malformed(
    best: Offer,
    alternatives: Seq<Seq<char>>,
    n: nat,
    m: nat,
    port: u16,
)
    requires
        n <= m,
        best_of(best, alternatives, n, port) is None,
    ensures
        best_of(best, alternatives, m, port) is None,
    decreases m,
{
    if n < m {
        lemma_best_of_stays_malformed(best, alternatives, n, (m - 1) as nat, port);
    }
}

proof fn lemma_best_in_stays_malformed(values: Seq<Seq<char>>, n: nat, m: nat, port: u16)
    requires
        n <= m,
        best_in(values, n, port) is None,
    ensures
        best_in(values, m, port) is None,
    decreases m,
{
    if n < m {
        lemma_best_in_stays_malformed(values, n, (m - 1) as nat, port);
    }
}

fn best_offer(best: Offer, value: &str, port: u16) -> (r: Option<Offer>)
    ensures
        r == best_of(best, text::split(value@, ','), text::split(value@, ',').len(), port),
{
    let cs = text::chars_of(value);
    let parts = text::split_chars(&cs, ',');
    let ghost all = text::split(value@, ',');
    assert(text::views(parts@).len() == parts@.len());
    let mut so_far: Offer = best;
    let mut i: usize = 0;
    while i < parts.len()
        invariant
            i <= parts@.len(),
            all == text::split(value@, ','),
            text::views(parts@) == all,
            all.len() == parts@.len(),
            best_of(best, all, i as nat, port) == Some(so_far),
        decreases parts@.len() - i,
    {
        assert(text::views(parts@)[i as int] == parts@[i as int]@);
        match parse_alternative(&parts[i], port) {
            Alternative::Malformed => {
                proof {
                    lemma_best_of_stays_malformed(best, all, (i + 1) as nat, all.len(), port);
                }
                return None;
            },
            Alternative::Skipped => {},
            Alternative::Offered(protocol, age) => {
                so_far = match so_far {
                    None => Some(ServiceOffer { protocol, age }),
                    Some(current) => if protocol_rank(protocol) > protocol_rank(current.protocol) {
                        Some(ServiceOffer { protocol, age })
                    } else {
                        Some(current)
                    },
                };
            },
        }
        i = i + 1;
    }
    Some(so_far)
}

/// The endpoint that a set of offers, made at `now`, comes to.
pub open spec fn selected(values: Seq<Seq<char>>, port: u16, now: u64) -> Option<AltSvcEndpoint> {
    match best_in(values, values.len(), port) {
        Some(Some(ServiceOffer { protocol, age })) => Some(
            AltSvcEndpoint { protocol, port, expires_at: later(now, age) },
        ),
        _ => None,
    }
}

/// A point in time so many seconds after `now`, both in milliseconds.
pub open spec fn later(now: u64, seconds: u64) -> u64 {
    if now + seconds * 1000 > u64::MAX {
        u64::MAX
    } else {
        (now + seconds * 1000) as u64
    }
}

pub fn selected_alt_svc_endpoint(values: &Vec<String>, request_port: u16, now: u64) -> (r: Option<
    AltSvcEndpoint,
>)
    ensures
        r == selected(text::texts(values@), request_port, now),
{
    let ghost all = text::texts(values@);
    let mut best: Offer = None;
    let mut i: usize = 0;
    while i < values.len()
        invariant
            i <= values@.len(),
            all == text::texts(values@),
            best_in(all, i as nat, request_port) == Some(best),
            best is Some ==> best->0.age <= MAX_ALT_SVC_AGE_SECS,
        decreases values@.len() - i,
    {
        assert(all[i as int] == values@[i as int]@);
        match best_offer(best, values[i].as_str(), request_port) {
            Some(next) => {
                proof {
                    let parts = text::split(all[i as int], ',');
                    lemma_offer_age(best, parts, parts.len(), request_port);
                }
                best = next;
            },
            None => {
                proof {
                    lemma_best_in_stays_malformed(all, (i + 1) as nat, all.len(), request_port);
                }
                return None;
            },
        }
        i = i + 1;
    }
    assert(all.len() == values@.len());
    match best {
        Some(ServiceOffer { protocol, age }) => {
            let span: u64 = age * 1000;
            Some(AltSvcEndpoint { protocol, port: request_port, expires_at: now.saturating_add(span) })
        },
        None => None,
    }
}

proof fn lemma_offer_age(best: Offer, alternatives: Seq<Seq<char>>, n: nat, port: u16)
    requires
        best is Some ==> best->0.age <= MAX_ALT_SVC_AGE_SECS,
        best_of(best, alternatives, n, port) is Some,
    ensures
        best_of(best, alternatives, n, port)->0 is Some ==> best_of(
            best,
            alternatives,
            n,
            port,
        )->0->0.age <= MAX_ALT_SVC_AGE_SECS,
    decreases n,
{
    if n > 0 {
        lemma_offer_age(best, alternatives, (n - 1) as nat, port);
    }
}

#[derive(Clone, Debug, PartialEq, Eq)]
pub struct AltSvcEntry {
    pub host: String,
    pub port: u16,
    pub endpoint: AltSvcEndpoint,
}

pub struct EntryView {
    pub host: Seq<char>,
    pub port: u16,
    pub endpoint: AltSvcEndpoint,
}

impl View for AltSvcEntry {
    type V = EntryView;

    open spec fn view(&self) -> EntryView {
        EntryView { host: self.host@, port: self.port, endpoint: self.endpoint }
    }
}

pub open spec fn entry_views(entries: Seq<AltSvcEntry>) -> Seq<EntryView> {
    Seq::new(entries.len(), |i: int| entries[i]@)
}

/// What is known of an origin.
pub open spec fn known(entries: Seq<EntryView>, host: Seq<char>, port: u16) -> Option<AltSvcEndpoint>
    decreases entries.len(),
{
    if entries.len() == 0 {
        None
    } else if entries.last().host == host && entries.last().port == port {
        Some(entries.last().endpoint)
    } else {
        known(entries.drop_last(), host, port)
    }
}

/// The entries of other origins.
pub open spec fn others(entries: Seq<EntryView>, host: Seq<char>, port: u16) -> Seq<EntryView> {
    entries.filter(|entry: EntryView| !(entry.host == host && entry.port == port))
}

/// The offers that are remembered.
#[derive(Clone, Debug, PartialEq, Eq)]
pub struct AltSvcTable {
    pub entries: Vec<AltSvcEntry>,
}

impl View for AltSvcTable {
    type V = Seq<EntryView>;

    open spec fn view(&self) -> Seq<EntryView> {
        entry_views(self.entries@)
    }
}

pub open spec fn is_https(scheme: Seq<char>) -> bool {
    text::same_ignoring_case(scheme, "https"@)
}

/// The protocol that a request goes over: the one on offer, where there is an
/// offer that has not run out.
pub open spec fn promoted(entries: Seq<EntryView>, request: RequestView, now: u64) -> OriginProtocol {
    if !is_https(request.scheme) || request.protocol == OriginProtocol::Http3 {
        request.protocol
    } else {
        match known(entries, text::lower(request.host), request.port) {
            Some(endpoint) => if endpoint.expires_at <= now || endpoint.port != request.port {
                request.protocol
            } else {
                endpoint.protocol
            },
            None => request.protocol,
        }
    }
}

pub open spec fn is_alt_svc(header: HeaderView) -> bool {
    text::same_ignoring_case(header.0, "alt-svc"@)
}

/// The values of the headers that make offers, among the first `n`.
pub open spec fn offers_of(headers: Seq<HeaderView>, n: nat) -> Seq<Seq<char>>
    decreases n,
{
    if n == 0 {
        Seq::empty()
    } else {
        let before = offers_of(headers, (n - 1) as nat);
        if is_alt_svc(headers[n - 1]) {
            before.push(headers[n - 1].1)
        } else {
            before
        }
    }
}

pub open spec fn clears(value: Seq<char>) -> bool {
    text::same_ignoring_case(text::trim(value), "clear"@)
}

/// The table after a response with the given headers.
pub open spec fn recorded(
    entries: Seq<EntryView>,
    request: RequestView,
    headers: Seq<HeaderView>,
    now: u64,
) -> Seq<EntryView> {
    let values = offers_of(headers, headers.len());
    let host = text::lower(request.host);
    if !is_https(request.scheme) || values.len() == 0 {
        entries
    } else if exists|i: int| 0 <= i < values.len() && clears(#[trigger] values[i]) {
        others(entries, host, request.port)
    } else {
        match selected(values, request.port, now) {
            Some(endpoint) => others(entries, host, request.port).push(
                EntryView { host, port: request.port, endpoint },
            ),
            None => entries,
        }
    }
}

impl AltSvcTable {
    pub fn new() -> (r: Self)
        ensures
            r@ == Seq::<EntryView>::empty(),
    {
        let r = AltSvcTable { entries: Vec::new() };
        assert(r@ =~= Seq::empty());
        r
    }

    fn find(&self, host: &str, port: u16) -> (r: Option<AltSvcEndpoint>)
        ensures
            r == known(self@, host@, port),
    {
        let mut i: usize = self.entries.len();
        assert(self@.take(i as int) =~= self@);
        while i > 0
            invariant
                i <= self.entries@.len(),
                known(self@, host@, port) == known(self@.take(i as int), host@, port),
            decreases i,
        {
            assert(self@.take(i as int).last() == self.entries@[i - 1]@);
            assert(self@.take(i as int).drop_last() =~= self@.take(i - 1));
            if text::same_text(self.entries[i - 1].host.as_str(), host) && self.entries[i - 1].port
                == port {
                return Some(self.entries[i - 1].endpoint);
            }
            i = i - 1;
        }
        None
    }

    fn remove(&mut self, host: &str, port: u16)
        ensures
            final(self)@ == others(old(self)@, host@, port),
    {
        let ghost start = self@;
        let ghost keep = |entry: EntryView| !(entry.host == host@ && entry.port == port);
        let mut rest: Vec<AltSvcEntry> = Vec::new();
        std::mem::swap(&mut rest, &mut self.entries);
        let mut kept: Vec<AltSvcEntry> = Vec::new();
        let ghost mut i: int = 0;
        let count: usize = rest.len();
        proof {
            assert(entry_views(rest@).skip(0) =~= start);
            assert(start.skip(0) =~= start);
            assert(entry_views(kept@) =~= start.take(0).filter(keep)) by {
                reveal(Seq::filter);
            }
        }
        while rest.len() > 0
            invariant
                0 <= i <= start.len(),
                keep == (|entry: EntryView| !(entry.host == host@ && entry.port == port)),
                entry_views(rest@) == start.skip(i),
                entry_views(kept@) == start.take(i).filter(keep),
            decreases rest@.len(),
        {
            let ghost before = rest@;
            assert(entry_views(before).len() == before.len());
            assert(entry_views(before)[0] == before[0]@);
            let entry = rest.remove(0);
            assert(entry_views(rest@) =~= start.skip(i + 1)) by {
                assert(rest@ =~= before.skip(1));
                assert(entry_views(before.skip(1)) =~= entry_views(before).skip(1));
                assert(start.skip(i).skip(1) =~= start.skip(i + 1));
            }
            proof {
                assert(start.skip(i)[0] == start[i]);
                assert(start.take(i + 1).drop_last() =~= start.take(i));
                reveal(Seq::filter);
                i = i + 1;
            }
            if !(text::same_text(entry.host.as_str(), host) && entry.port == port) {
                let ghost so_far = entry_views(kept@);
                let ghost seen = entry@;
                kept.push(entry);
                assert(entry_views(kept@) =~= so_far.push(seen));
            }
        }
        proof {
            assert(entry_views(rest@).len() == 0);
            assert(start.skip(i).len() == 0);
            assert(start.take(i) =~= start);
        }
        self.entries = kept;
    }

    /// The request, over the protocol on offer.
    pub fn promoted_request(&self, request: &OriginRequest, now: u64) -> (r: OriginRequest)
        ensures
            r@ == (RequestView { protocol: promoted(self@, request@, now), ..request@ }),
    {
        let mut r = request.copy();
        if text::eq_ignore_case(request.scheme.as_str(), "https") && request.protocol
            != OriginProtocol::Http3 {
            let host = text::to_lower(request.host.as_str());
            if let Some(endpoint) = self.find(host.as_str(), request.port) {
                if endpoint.expires_at > now && endpoint.port == request.port {
                    r.protocol = endpoint.protocol;
                }
            }
        }
        r
    }

    /// Remembers what a response's headers offer, or forgets it where they say
    /// so.
    pub fn record_alt_svc(&mut self, request: &OriginRequest, headers: &Vec<Header>, now: u64)
        ensures
            final(self)@ == recorded(old(self)@, request@, types::header_views(headers@), now),
    {
        if !text::eq_ignore_case(request.scheme.as_str(), "https") {
            return;
        }
        let ghost all = types::header_views(headers@);
        let mut values: Vec<String> = Vec::new();
        let mut clear = false;
        let mut i: usize = 0;
        assert(text::texts(values@) =~= Seq::empty());
        while i < headers.len()
            invariant
                i <= headers@.len(),
                all == types::header_views(headers@),
                text::texts(values@) == offers_of(all, i as nat),
                clear == (exists|j: int|
                    0 <= j < text::texts(values@).len() && clears(
                        #[trigger] text::texts(values@)[j],
                    )),
            decreases headers@.len() - i,
        {
            assert(all[i as int] == (headers@[i as int].0@, headers@[i as int].1@));
            if text::eq_ignore_case(headers[i].0.as_str(), "alt-svc") {
                let ghost before = text::texts(values@);
                let value = text::chars_of(headers[i].1.as_str());
                let value = text::trimmed(&value);
                let value = text::text_of(&value);
                let clearing = text::eq_ignore_case(value.as_str(), "clear");
                values.push(headers[i].1.clone());
                let ghost after = text::texts(values@);
                proof {
                    assert(after =~= before.push(all[i as int].1));
                    assert(forall|j: int| 0 <= j < before.len() ==> after[j] == before[j]);
                    if clearing {
                        assert(clears(after[before.len() as int]));
                    }
                    if clear {
                        let j = choose|j: int|
                            0 <= j < before.len() && clears(#[trigger] before[j]);
                        assert(clears(after[j]));
                    }
                }
                if clearing {
                    clear = true;
                }
            }
            i = i + 1;
        }
        assert(all.len() == headers@.len());
        assert(text::texts(values@).len() == values@.len());
        if values.len() == 0 {
            return;
        }
        let host = text::to_lower(request.host.as_str());
        if clear {
            self.remove(host.as_str(), request.port);
            return;
        }
        if let Some(endpoint) = selected_alt_svc_endpoint(&values, request.port, now) {
            self.remove(host.as_str(), request.port);
            let ghost before = self@;
            let entry = AltSvcEntry { host, port: request.port, endpoint };
            let ghost seen = entry@;
            self.entries.push(entry);
            assert(self@ =~= before.push(seen));
        }
    }
}

/// A request is never promoted off its own port, nor on an offer that has run
/// out, nor in the clear.
pub proof fn law_promotion_needs_a_live_offer(entries: Seq<EntryView>, request: RequestView, now: u64)
    ensures
        promoted(entries, request, now) != request.protocol ==> is_https(request.scheme) && known(
            entries,
            text::lower(request.host),
            request.port,
        ) is Some && known(entries, text::lower(request.host), request.port)->0.expires_at > now,
{
}

/// What is recorded for an origin is what is known of it afterwards.
pub proof fn law_recorded_offer_is_known(
    entries: Seq<EntryView>,
    request: RequestView,
    headers: Seq<HeaderView>,
    now: u64,
)
    requires
        is_https(request.scheme),
        offers_of(headers, headers.len()).len() > 0,
        !(exists|i: int|
            0 <= i < offers_of(headers, headers.len()).len() && clears(
                #[trigger] offers_of(headers, headers.len())[i],
            )),
        selected(offers_of(headers, headers.len()), request.port, now) is Some,
    ensures
        known(recorded(entries, request, headers, now), text::lower(request.host), request.port)
            == selected(offers_of(headers, headers.len()), request.port, now),
{
}

/// An origin that clears its offers has none afterwards.
pub proof fn law_cleared_offer_is_forgotten(
    entries: Seq<EntryView>,
    request: RequestView,
    headers: Seq<HeaderView>,
    now: u64,
    at: int,
)
    requires
        is_https(request.scheme),
        0 <= at < offers_of(headers, headers.len()).len(),
        clears(offers_of(headers, headers.len())[at]),
    ensures
        known(recorded(entries, request, headers, now), text::lower(request.host), request.port)
            is None,
{
    let kept = others(entries, text::lower(request.host), request.port);
    let keep = |entry: EntryView|
        !(entry.host == text::lower(request.host) && entry.port == request.port);
    assert forall|i: int| 0 <= i < kept.len() implies keep(#[trigger] kept[i]) by {
        entries.lemma_filter_pred(keep, i);
    }
    lemma_unknown(kept, text::lower(request.host), request.port);
}

proof fn lemma_unknown(entries: Seq<EntryView>, host: Seq<char>, port: u16)
    requires
        forall|i: int|
            0 <= i < entries.len() ==> !((#[trigger] entries[i]).host == host && entries[i].port
                == port),
    ensures
        known(entries, host, port) is None,
    decreases entries.len(),
{
    if entries.len() > 0 {
        assert(entries.last() == entries[entries.len() - 1]);
        lemma_unknown(entries.drop_last(), host, port);
    }
}

/// A request under HTTPS goes over the protocol that is on offer, as long as the
/// offer is for its port and has not run out.
pub proof fn law_live_offer_is_used(entries: Seq<EntryView>, request: RequestView, now: u64)
    requires
        is_https(request.scheme),
        request.protocol != OriginProtocol::Http3,
        known(entries, text::lower(request.host), request.port) is Some,
        known(entries, text::lower(request.host), request.port)->0.port == request.port,
        known(entries, text::lower(request.host), request.port)->0.expires_at > now,
    ensures
        promoted(entries, request, now) == known(
            entries,
            text::lower(request.host),
            request.port,
        )->0.protocol,
{
}

/// What a response offers changes nothing for other origins.
pub proof fn law_other_origins_keep_their_offers(
    entries: Seq<EntryView>,
    request: RequestView,
    headers: Seq<HeaderView>,
    now: u64,
    host: Seq<char>,
    port: u16,
)
    requires
        host != text::lower(request.host) || port != request.port,
    ensures
        known(recorded(entries, request, headers, now), host, port) == known(entries, host, port),
{
    let own = text::lower(request.host);
    let kept = others(entries, own, request.port);
    lemma_others_are_kept(entries, own, request.port, host, port);
    let values = offers_of(headers, headers.len());
    if selected(values, request.port, now) is Some {
        let entry = EntryView {
            host: own,
            port: request.port,
            endpoint: selected(values, request.port, now)->0,
        };
        assert(kept.push(entry).drop_last() =~= kept);
    }
}

proof fn lemma_others_are_kept(
    entries: Seq<EntryView>,
    own: Seq<char>,
    own_port: u16,
    host: Seq<char>,
    port: u16,
)
    requires
        host != own || port != own_port,
    ensures
        known(others(entries, own, own_port), host, port) == known(entries, host, port),
    decreases entries.len(),
{
    reveal(Seq::filter);
    if entries.len() > 0 {
        lemma_others_are_kept(entries.drop_last(), own, own_port, host, port);
        let kept = others(entries.drop_last(), own, own_port);
        if !(entries.last().host == own && entries.last().port == own_port) {
            assert(others(entries, own, own_port) == kept.push(entries.last()));
            assert(kept.push(entries.last()).drop_last() =~= kept);
        }
    }
}

/// Every header that makes offers is read, and no other.
pub proof fn law_every_offer_is_read(headers: Seq<HeaderView>, n: nat, value: Seq<char>)
    requires
        n <= headers.len(),
    ensures
        offers_of(headers, n).contains(value) <==> exists|i: int|
            0 <= i < n && text::same_ignoring_case((#[trigger] headers[i]).0, "alt-svc"@)
                && headers[i].1 == value,
    decreases n,
{
    if n > 0 {
        law_every_offer_is_read(headers, (n - 1) as nat, value);
        let before = offers_of(headers, (n - 1) as nat);
        let all = offers_of(headers, n);
        if before.contains(value) {
            let k = choose|k: int| 0 <= k < before.len() && before[k] == value;
            assert(all[k] == value);
        }
        if is_alt_svc(headers[n - 1]) && headers[n - 1].1 == value {
            assert(all[all.len() - 1] == value);
        }
        if all.contains(value) {
            let k = choose|k: int| 0 <= k < all.len() && all[k] == value;
            if k < before.len() {
                assert(before[k] == value);
            } else {
                assert(text::same_ignoring_case(headers[n - 1].0, "alt-svc"@));
            }
        }
        if exists|i: int|
            0 <= i < n && text::same_ignoring_case((#[trigger] headers[i]).0, "alt-svc"@)
                && headers[i].1 == value {
            let i = choose|i: int|
                0 <= i < n && text::same_ignoring_case((#[trigger] headers[i]).0, "alt-svc"@)
                    && headers[i].1 == value;
            if i < n - 1 {
                assert(text::same_ignoring_case(headers[i].0, "alt-svc"@) && headers[i].1 == value);
            }
        }
    }
}

/// The `j`th alternative of the `i`th value.
pub open spec fn listed(values: Seq<Seq<char>>, i: int, j: int, port: u16) -> Alternative {
    alternative_of(text::split(values[i], ',')[j], port)
}

/// Whether there is such an alternative.
pub open spec fn lists(values: Seq<Seq<char>>, i: int, j: int) -> bool {
    0 <= i < values.len() && 0 <= j < text::split(values[i], ',').len()
}

/// The endpoint is one that is offered, on the origin's port, until its age is
/// over; no protocol on offer is newer; and there is none only where nothing is
/// offered or a part of the offers cannot be read.
pub proof fn law_newest_offer_is_selected(values: Seq<Seq<char>>, port: u16, now: u64)
    ensures
        selected(values, port, now) is None <==> (exists|i: int, j: int| #[trigger]
            lists(values, i, j) && listed(values, i, j, port) == Alternative::Malformed) || forall|
            i: int,
            j: int,
        | #[trigger]
            lists(values, i, j) ==> !(listed(values, i, j, port) is Offered),
        selected(values, port, now) matches Some(endpoint) ==> {
            &&& endpoint.port == port
            &&& exists|i: int, j: int, age: u64|
                #![trigger lists(values, i, j), later(now, age)]
                lists(values, i, j) && listed(values, i, j, port) == Alternative::Offered(
                    endpoint.protocol,
                    age,
                ) && endpoint.expires_at == later(now, age)
            &&& forall|i: int, j: int| #[trigger]
                lists(values, i, j) ==> (listed(values, i, j, port) matches Alternative::Offered(
                    protocol,
                    _,
                ) ==> !is_newer(protocol, endpoint.protocol))
        },
{
    lemma_best_in(values, values.len(), port);
    let best = best_in(values, values.len(), port);
    if best is Some && best->0 is Some {
        let offer = best->0->0;
        let (i, j) = choose|i: int, j: int| #[trigger]
            lists(values, i, j) && i < values.len() && listed(values, i, j, port)
                == Alternative::Offered(offer.protocol, offer.age);
        assert(lists(values, i, j) && later(now, offer.age) == later(now, offer.age));
    }
}

/// The order of the protocols: HTTP/3, then HTTP/2, then HTTP/1.1.
pub open spec fn is_newer(a: OriginProtocol, b: OriginProtocol) -> bool {
    match (a, b) {
        (OriginProtocol::Http3, OriginProtocol::Http2) => true,
        (OriginProtocol::Http3, OriginProtocol::Http11) => true,
        (OriginProtocol::Http2, OriginProtocol::Http11) => true,
        _ => false,
    }
}

proof fn lemma_best_of(best: Offer, alternatives: Seq<Seq<char>>, n: nat, port: u16)
    requires
        n <= alternatives.len(),
    ensures
        best_of(best, alternatives, n, port) is None <==> exists|j: int|
            0 <= j < n && alternative_of(#[trigger] alternatives[j], port)
                == Alternative::Malformed,
        best_of(best, alternatives, n, port) matches Some(end) ==> {
            &&& best is Some ==> end is Some && !is_newer(best->0.protocol, end->0.protocol)
            &&& end is Some ==> end == best || exists|j: int|
                0 <= j < n && alternative_of(#[trigger] alternatives[j], port)
                    == Alternative::Offered(end->0.protocol, end->0.age)
            &&& forall|j: int|
                0 <= j < n ==> (alternative_of(#[trigger] alternatives[j], port) matches
                Alternative::Offered(protocol, _) ==> end is Some && !is_newer(
                    protocol,
                    end->0.protocol,
                ))
        },
    decreases n,
{
    if n > 0 {
        lemma_best_of(best, alternatives, (n - 1) as nat, port);
        let before = best_of(best, alternatives, (n - 1) as nat, port);
        if before is None {
            let j = choose|j: int|
                0 <= j < n - 1 && alternative_of(#[trigger] alternatives[j], port)
                    == Alternative::Malformed;
            assert(alternative_of(alternatives[j], port) == Alternative::Malformed);
        } else if before->0 is Some && before->0 != best {
            let end = before->0->0;
            let j = choose|j: int|
                0 <= j < n - 1 && alternative_of(#[trigger] alternatives[j], port)
                    == Alternative::Offered(end.protocol, end.age);
            assert(alternative_of(alternatives[j], port) == Alternative::Offered(
                end.protocol,
                end.age,
            ));
        }
    }
}

proof fn lemma_best_in(values: Seq<Seq<char>>, n: nat, port: u16)
    requires
        n <= values.len(),
    ensures
        best_in(values, n, port) is None <==> exists|i: int, j: int| #[trigger]
            lists(values, i, j) && i < n && listed(values, i, j, port) == Alternative::Malformed,
        best_in(values, n, port) matches Some(end) ==> {
            &&& end is Some ==> exists|i: int, j: int| #[trigger]
                lists(values, i, j) && i < n && listed(values, i, j, port) == Alternative::Offered(
                    end->0.protocol,
                    end->0.age,
                )
            &&& forall|i: int, j: int| #[trigger]
                lists(values, i, j) && i < n ==> (listed(values, i, j, port) matches
                Alternative::Offered(protocol, _) ==> end is Some && !is_newer(
                    protocol,
                    end->0.protocol,
                ))
        },
    decreases n,
{
    if n > 0 {
        lemma_best_in(values, (n - 1) as nat, port);
        let before = best_in(values, (n - 1) as nat, port);
        let last = text::split(values[n - 1], ',');
        if before is Some {
            lemma_best_of(before->0, last, last.len(), port);
            let end = best_of(before->0, last, last.len(), port);
            if end is None {
                let j = choose|j: int|
                    0 <= j < last.len() && alternative_of(#[trigger] last[j], port)
                        == Alternative::Malformed;
                assert(lists(values, n - 1, j) && listed(values, n - 1, j, port)
                    == Alternative::Malformed);
            } else {
                assert forall|i: int, j: int| #[trigger]
                    lists(values, i, j) && i < n implies listed(values, i, j, port)
                    != Alternative::Malformed && (listed(values, i, j, port) matches
                Alternative::Offered(protocol, _) ==> end->0 is Some && !is_newer(
                    protocol,
                    end->0->0.protocol,
                )) by {
                    if i == n - 1 {
                        assert(alternative_of(last[j], port) == listed(values, i, j, port));
                    } else {
                        assert(lists(values, i, j) && i < n - 1);
                    }
                }
                if end->0 is Some && end->0 != before->0 {
                    let j = choose|j: int|
                        0 <= j < last.len() && alternative_of(#[trigger] last[j], port)
                            == Alternative::Offered(end->0->0.protocol, end->0->0.age);
                    assert(lists(values, n - 1, j) && listed(values, n - 1, j, port)
                        == Alternative::Offered(end->0->0.protocol, end->0->0.age));
                }
            }
        }
    }
}

/// The names of the protocols: `h2`, and `h3` or one of its drafts, in any case.
pub proof fn law_protocol_names(name: Seq<char>)
    requires
        name.len() > 0,
        !text::is_space(name[0]),
        !text::is_space(name.last()),
    ensures
        offered_protocol(name) == Some(OriginProtocol::Http2) <==> text::same_ignoring_case(
            name,
            "h2"@,
        ),
        offered_protocol(name) == Some(OriginProtocol::Http3) <==> text::same_ignoring_case(
            name,
            "h3"@,
        ) || (name.len() >= 3 && text::same_ignoring_case(name.take(3), "h3-"@)),
        offered_protocol(name) != Some(OriginProtocol::Http11),
{
    reveal_strlit("h2");
    reveal_strlit("h3");
    reveal_strlit("h3-");
    text::law_trimmed_text_stays(name);
    let low = text::lower(name);
    assert(text::lower("h2"@) =~= "h2"@);
    assert(text::lower("h3"@) =~= "h3"@);
    assert(text::lower("h3-"@) =~= "h3-"@);
    assert("h2"@[1] != "h3"@[1]);
    if text::occurs_at(low, "h3-"@, 0) {
        assert(low.len() >= 3);
    }
    if name.len() >= 3 {
        assert(text::lower(name.take(3)) =~= low.take(3));
        if text::occurs_at(low, "h3-"@, 0) {
            assert(low.take(3) =~= "h3-"@);
        }
        if low.take(3) == "h3-"@ {
            assert(low[0] == 'h' && low[1] == '3' && low[2] == '-') by {
                assert(low.take(3)[0] == low[0] && low.take(3)[1] == low[1] && low.take(3)[2]
                    == low[2]);
            }
            assert(low.subrange(0, 3) =~= low.take(3));
        }
    }
}

/// An alternative as an origin writes it: the protocol's name, a port, and an age.
pub open spec fn offer_text(name: Seq<char>, port: u16, age: u64) -> Seq<char> {
    name + seq!['=', '"', ':'] + text::decimal(port as nat) + seq!['"'] + seq![
        ';',
        ' ',
        'm',
        'a',
        '=',
    ] + text::decimal(age as nat)
}

/// An offer is read as it is written: its protocol for its age, at most a day, if
/// it is on the origin's own port; with no age left, or on another port, it is of
/// no use.
pub proof fn law_offer_reads_back(
    name: Seq<char>,
    protocol: OriginProtocol,
    port: u16,
    age: u64,
    request_port: u16,
)
    requires
        name.len() > 0,
        !text::is_space(name[0]),
        !name.contains('='),
        offered_protocol(name) == Some(protocol),
    ensures
        alternative_of(offer_text(name, port, age), request_port) == (if port != request_port
            || age == 0 {
            Alternative::Skipped
        } else if age <= 86_400 {
            Alternative::Offered(protocol, age)
        } else {
            Alternative::Offered(protocol, 86_400)
        }),
{
    let whole = offer_text(name, port, age);
    let port_digits = text::decimal(port as nat);
    let age_digits = text::decimal(age as nat);
    text::lemma_decimal_digits(port as nat);
    text::lemma_decimal_digits(age as nat);
    assert(whole[0] == name[0]);
    assert(whole.last() == age_digits.last());
    text::law_trimmed_text_stays(whole);
    assert forall|i: int| 0 <= i < name.len() implies whole[i] != '=' by {
        assert(whole[i] == name[i]);
        if name[i] == '=' {
            assert(name.contains('='));
        }
    }
    text::lemma_find_is(whole, '=', name.len() as int);
    assert(whole.take(name.len() as int) =~= name);
    let rest = whole.skip(name.len() as int + 1);
    assert(rest =~= seq!['"', ':'] + port_digits + seq!['"'] + seq![';', ' ', 'm', 'a', '=']
        + age_digits);
    assert(text::trim_start(rest) == rest);
    let inner = rest.skip(1);
    let authority = seq![':'] + port_digits;
    let quote = authority.len() as int;
    assert(inner.take(quote) =~= authority);
    assert forall|i: int| 0 <= i < quote implies inner[i] != '"' by {
        assert(inner[i] == authority[i]);
        if i > 0 {
            assert(authority[i] == port_digits[i - 1]);
        }
    }
    text::lemma_find_is(inner, '"', quote);
    assert(authority.skip(1) =~= port_digits);
    text::law_decimal_reads_back(port as nat, 65_535);
    let params = inner.skip(quote + 1);
    lemma_age_reads_back(age);
    assert(params =~= seq![';', ' ', 'm', 'a', '='] + age_digits);
}

proof fn lemma_age_reads_back(age: u64)
    ensures
        max_age_of(seq![';', ' ', 'm', 'a', '='] + text::decimal(age as nat)) == Some(age as nat),
{
    let digits = text::decimal(age as nat);
    let params = seq![';', ' ', 'm', 'a', '='] + digits;
    let param = seq![' ', 'm', 'a', '='] + digits;
    let bare = seq!['m', 'a', '='] + digits;
    let empty = Seq::<char>::empty();
    reveal_with_fuel(first_age, 3);
    text::lemma_decimal_digits(age as nat);
    assert(params =~= empty + seq![';'] + param);
    text::law_split_undoes_joining(empty, param, ';');
    assert forall|i: int| 0 <= i < param.len() implies param[i] != ';' by {
        if i >= 4 {
            assert(param[i] == digits[i - 4]);
        }
    }
    assert(!param.contains(';'));
    text::law_split_undoes_joining(param, empty, ';');
    let pieces = text::split(params, ';');
    assert(pieces =~= seq![empty, param]);
    assert(age_of(empty) is None) by {
        text::law_trimmed_text_stays(empty);
        text::lemma_find(empty, '=');
    }
    assert(pieces.skip(1)[0] == param);
    assert(bare.last() == digits.last());
    assert(param =~= seq![' '] + bare);
    text::law_trimmed_text_stays(bare);
    text::lemma_find_is(bare, '=', 2);
    reveal_strlit("ma");
    assert(bare.take(2) =~= "ma"@);
    text::law_trimmed_text_stays("ma"@);
    assert(bare.skip(3) =~= digits);
    assert(digits[0] != '"' && digits.last() != '"');
    text::law_trimmed_text_stays(digits);
    assert(unquoted(digits) == digits);
    text::law_decimal_reads_back(age as nat, u64::MAX as nat);
}

/// An offer ends its age in seconds after it was made, in milliseconds.
pub proof fn law_offer_ends_after_its_age(now: u64, seconds: u64)
    ensures
        now + 1000 * seconds <= u64::MAX ==> later(now, seconds) == now + 1000 * seconds,
        now + 1000 * seconds > u64::MAX ==> later(now, seconds) == u64::MAX,
{
}

/// An offer that gives no age holds for a day.
pub proof fn law_offer_without_age_holds_for_a_day(
    name: Seq<char>,
    protocol: OriginProtocol,
    port: u16,
)
    requires
        name.len() > 0,
        !text::is_space(name[0]),
        !name.contains('='),
        offered_protocol(name) == Some(protocol),
    ensures
        alternative_of(
            name + seq!['=', '"', ':'] + text::decimal(port as nat) + seq!['"'],
            port,
        ) == Alternative::Offered(protocol, 86_400),
{
    let digits = text::decimal(port as nat);
    let whole = name + seq!['=', '"', ':'] + digits + seq!['"'];
    text::lemma_decimal_digits(port as nat);
    assert(whole[0] == name[0]);
    assert(whole.last() == '"');
    text::law_trimmed_text_stays(whole);
    assert forall|i: int| 0 <= i < name.len() implies whole[i] != '=' by {
        assert(whole[i] == name[i]);
        if name[i] == '=' {
            assert(name.contains('='));
        }
    }
    text::lemma_find_is(whole, '=', name.len() as int);
    assert(whole.take(name.len() as int) =~= name);
    let rest = whole.skip(name.len() as int + 1);
    let authority = seq![':'] + digits;
    let quote = authority.len() as int;
    assert(rest =~= seq!['"'] + authority + seq!['"']);
    assert(text::trim_start(rest) == rest);
    let inner = rest.skip(1);
    assert(inner.take(quote) =~= authority);
    assert forall|i: int| 0 <= i < quote implies inner[i] != '"' by {
        assert(inner[i] == authority[i]);
        if i > 0 {
            assert(authority[i] == digits[i - 1]);
        }
    }
    text::lemma_find_is(inner, '"', quote);
    assert(authority.skip(1) =~= digits);
    text::law_decimal_reads_back(port as nat, 65_535);
    let params = inner.skip(quote + 1);
    let empty = Seq::<char>::empty();
    assert(params =~= empty);
    reveal_with_fuel(first_age, 3);
    text::law_split_undoes_joining(empty, empty, ';');
    text::law_trimmed_text_stays(empty);
    text::lemma_find(empty, '=');
    assert(age_of(empty) is None);
    assert(text::split(params, ';').skip(1) =~= Seq::empty());
}

} // verus!
