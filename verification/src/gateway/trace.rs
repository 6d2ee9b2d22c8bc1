//! What the gateway records of the nameservers it asked.
use crate::error::ResolverError;
use crate::gateway::json;
use crate::store;
use crate::text;
use crate::transport::types::{OriginResponse, TransportError};
use vstd::prelude::*;
use vstd::string::*;

verus! {

/// One question to a server.
#[derive(Clone, Debug, PartialEq, Eq)]
pub struct DnsTraceEvent {
    pub protocol: &'static str,
    pub server: String,
    pub status: String,
    pub elapsed_ms: u64,
    pub error: Option<String>,
}

pub struct EventView {
    pub protocol: Seq<char>,
    pub server: Seq<char>,
    pub status: Seq<char>,
    pub elapsed_ms: u64,
    pub error: Option<Seq<char>>,
}

pub open spec fn text_view(text: Option<String>) -> Option<Seq<char>> {
    match text {
        Some(text) => Some(text@),
        None => None,
    }
}

impl View for DnsTraceEvent {
    type V = EventView;

    open spec fn view(&self) -> EventView {
        EventView {
            protocol: self.protocol@,
            server: self.server@,
            status: self.status@,
            elapsed_ms: self.elapsed_ms,
            error: text_view(self.error),
        }
    }
}

pub open spec fn event_views(events: Seq<DnsTraceEvent>) -> Seq<EventView> {
    Seq::new(events.len(), |i: int| events[i]@)
}

/// The questions so far.
#[derive(Clone, Debug, PartialEq, Eq)]
pub struct DnsTraceRecorder {
    pub events: Vec<DnsTraceEvent>,
}

impl View for DnsTraceRecorder {
    type V = Seq<EventView>;

    open spec fn view(&self) -> Seq<EventView> {
        event_views(self.events@)
    }
}

impl DnsTraceRecorder {
    pub fn new() -> (r: Self)
        ensures
            r@ == Seq::<EventView>::empty(),
    {
        let r = DnsTraceRecorder { events: Vec::new() };
        assert(r@ =~= Seq::empty());
        r
    }

    pub fn push(&mut self, event: DnsTraceEvent)
        ensures
            final(self)@ == old(self)@.push(event@),
    {
        let ghost before = self@;
        let ghost seen = event@;
        self.events.push(event);
        assert(self@ =~= before.push(seen));
    }
}

/// What an error says of a question to a nameserver.
pub open spec fn error_status(error: ResolverError) -> Seq<char> {
    match error {
        ResolverError::DnsTransport(message) => if text::contains_text(message@, "timed out"@)
            || text::contains_text(message@, "timeout"@) || text::contains_text(
            message@,
            "deadline"@,
        ) {
            "timeout"@
        } else {
            "transport_error"@
        },
        ResolverError::InvalidDnsResponse => "invalid_response"@,
        ResolverError::DnssecFailed => "dnssec_failed"@,
        _ => "error"@,
    }
}

pub fn dns_trace_error_status(error: &ResolverError) -> (r: &'static str)
    ensures
        r@ == error_status(*error),
{
    match error {
        ResolverError::DnsTransport(message) => if text::has_text(message.as_str(), "timed out")
            || text::has_text(message.as_str(), "timeout") || text::has_text(
            message.as_str(),
            "deadline",
        ) {
            "timeout"
        } else {
            "transport_error"
        },
        ResolverError::InvalidDnsResponse => "invalid_response",
        ResolverError::DnssecFailed => "dnssec_failed",
        _ => "error",
    }
}

/// The record of a question to a nameserver that ended in `error`, or well.
pub fn dns_trace_event(
    protocol: &'static str,
    server: String,
    elapsed_ms: u64,
    error: Option<&ResolverError>,
) -> (r: DnsTraceEvent)
    ensures
        r@ == (EventView {
            protocol: protocol@,
            server: server@,
            status: match error {
                Some(error) => error_status(*error),
                None => "ok"@,
            },
            elapsed_ms,
            error: match error {
                Some(error) => Some(error.text()),
                None => None,
            },
        }),
{
    match error {
        None => DnsTraceEvent {
            protocol,
            server,
            status: "ok".to_owned(),
            elapsed_ms,
            error: None,
        },
        Some(error) => DnsTraceEvent {
            protocol,
            server,
            status: dns_trace_error_status(error).to_owned(),
            elapsed_ms,
            error: Some(error.message()),
        },
    }
}

/// The record of a question over HTTPS.
pub open spec fn doh_event(
    server: Seq<char>,
    elapsed_ms: u64,
    result: Result<OriginResponse, TransportError>,
) -> EventView {
    let (status, error) = match result {
        Ok(response) => if response.status == 200 {
            ("ok"@, None)
        } else {
            ("http_error"@, Some("HTTP "@ + text::decimal(response.status as nat)))
        },
        Err(error) => ("transport_error"@, Some(error.text())),
    };
    EventView { protocol: "hns_doh"@, server, status, elapsed_ms, error }
}

pub fn doh_trace_event(
    server: String,
    elapsed_ms: u64,
    result: &Result<OriginResponse, TransportError>,
) -> (r: DnsTraceEvent)
    ensures
        r@ == doh_event(server@, elapsed_ms, *result),
{
    match result {
        Ok(response) => if response.status == 200 {
            DnsTraceEvent {
                protocol: "hns_doh",
                server,
                status: "ok".to_owned(),
                elapsed_ms,
                error: None,
            }
        } else {
            let mut error = "HTTP ".to_owned();
            text::push_decimal(&mut error, response.status as u64);
            DnsTraceEvent {
                protocol: "hns_doh",
                server,
                status: "http_error".to_owned(),
                elapsed_ms,
                error: Some(error),
            }
        },
        Err(error) => DnsTraceEvent {
            protocol: "hns_doh",
            server,
            status: "transport_error".to_owned(),
            elapsed_ms,
            error: Some(error.message()),
        },
    }
}

/// Whether one of the first `n` questions over a protocol ended with a status.
pub open spec fn ended_with(
    events: Seq<EventView>,
    n: nat,
    protocol: Seq<char>,
    status: Seq<char>,
) -> bool {
    exists|i: int|
        0 <= i < n && (#[trigger] events[i]).protocol == protocol && events[i].status == status
}

/// The status of the last of the first `n` questions over a protocol.
pub open spec fn last_status(events: Seq<EventView>, n: nat, protocol: Seq<char>) -> Option<
    Seq<char>,
>
    decreases n,
{
    if n == 0 {
        None
    } else if events[n - 1].protocol == protocol {
        Some(events[n - 1].status)
    } else {
        last_status(events, (n - 1) as nat, protocol)
    }
}

/// How the questions over a protocol went: well if one did, else a timeout if
/// there was one, else as the last went.
pub open spec fn protocol_status(events: Seq<EventView>, protocol: Seq<char>) -> Seq<char> {
    match last_status(events, events.len(), protocol) {
        None => "not_attempted"@,
        Some(last) => if ended_with(events, events.len(), protocol, "ok"@) {
            "ok"@
        } else if ended_with(events, events.len(), protocol, "timeout"@) {
            "timeout"@
        } else {
            last
        },
    }
}

pub fn dns_protocol_status(events: &Vec<DnsTraceEvent>, protocol: &str) -> (r: String)
    ensures
        r@ == protocol_status(event_views(events@), protocol@),
{
    let ghost all = event_views(events@);
    let mut ok = false;
    let mut timeout = false;
    let mut last: Option<String> = None;
    let mut i: usize = 0;
    while i < events.len()
        invariant
            i <= events@.len(),
            all == event_views(events@),
            ok == ended_with(all, i as nat, protocol@, "ok"@),
            timeout == ended_with(all, i as nat, protocol@, "timeout"@),
            text_view(last) == last_status(all, i as nat, protocol@),
        decreases events@.len() - i,
    {
        assert(all[i as int] == events@[i as int]@);
        if text::same_text(events[i].protocol, protocol) {
            if text::same_text(events[i].status.as_str(), "ok") {
                ok = true;
            }
            if text::same_text(events[i].status.as_str(), "timeout") {
                timeout = true;
            }
            last = Some(events[i].status.clone());
        }
        i = i + 1;
    }
    assert(all.len() == events@.len());
    match last {
        None => "not_attempted".to_owned(),
        Some(last) => if ok {
            "ok".to_owned()
        } else if timeout {
            "timeout".to_owned()
        } else {
            last
        },
    }
}

pub open spec fn authoritative_text(events: Seq<EventView>) -> Seq<char> {
    "{\"udp53\":\""@ + protocol_status(events, "udp53"@) + "\",\"tcp53\":\""@ + protocol_status(
        events,
        "tcp53"@,
    ) + "\"}"@
}

pub fn authoritative_dns_trace_json(events: &Vec<DnsTraceEvent>) -> (r: String)
    ensures
        r@ == authoritative_text(event_views(events@)),
{
    let udp = dns_protocol_status(events, "udp53");
    let tcp = dns_protocol_status(events, "tcp53");
    let mut out = "{\"udp53\":\"".to_owned();
    out.append(udp.as_str());
    out.append("\",\"tcp53\":\"");
    out.append(tcp.as_str());
    out.append("\"}");
    out
}

pub open spec fn attempt_text(event: EventView) -> Seq<char> {
    "{\"protocol\":\""@ + event.protocol + "\",\"server\":\""@ + json::escaped(event.server)
        + "\",\"status\":\""@ + json::escaped(event.status) + "\",\"elapsedMs\":"@ + text::decimal(
        event.elapsed_ms as nat,
    ) + ",\"error\":"@ + json::quoted_or_null(event.error) + "}"@
}

pub open spec fn attempt_texts(events: Seq<EventView>) -> Seq<Seq<char>> {
    Seq::new(events.len(), |i: int| attempt_text(events[i]))
}

/// The questions, one after the other.
pub open spec fn attempts_text(events: Seq<EventView>) -> Seq<char> {
    json::joined(attempt_texts(events), events.len())
}

fn attempt_json(event: &DnsTraceEvent) -> (r: String)
    ensures
        r@ == attempt_text(event@),
{
    let server = json::json_escape(event.server.as_str());
    let status = json::json_escape(event.status.as_str());
    let error = match &event.error {
        Some(error) => json::json_string(error.as_str()),
        None => "null".to_owned(),
    };
    let mut out = "{\"protocol\":\"".to_owned();
    out.append(event.protocol);
    out.append("\",\"server\":\"");
    out.append(server.as_str());
    out.append("\",\"status\":\"");
    out.append(status.as_str());
    out.append("\",\"elapsedMs\":");
    text::push_decimal(&mut out, event.elapsed_ms);
    out.append(",\"error\":");
    out.append(error.as_str());
    out.append("}");
    out
}

pub fn dns_trace_attempts_json(events: &Vec<DnsTraceEvent>) -> (r: String)
    ensures
        r@ == attempts_text(event_views(events@)),
{
    let ghost all = event_views(events@);
    let mut items: Vec<String> = Vec::new();
    let mut i: usize = 0;
    assert(text::texts(items@) =~= attempt_texts(all).take(0));
    while i < events.len()
        invariant
            i <= events@.len(),
            all == event_views(events@),
            text::texts(items@) == attempt_texts(all).take(i as int),
        decreases events@.len() - i,
    {
        let ghost before = text::texts(items@);
        let item = attempt_json(&events[i]);
        let ghost seen = item@;
        items.push(item);
        assert(text::texts(items@) =~= before.push(seen));
        assert(attempt_texts(all).take(i + 1) =~= before.push(attempt_texts(all)[i as int]));
        i = i + 1;
    }
    assert(attempt_texts(all).take(i as int) =~= attempt_texts(all));
    assert(text::texts(items@).len() == items@.len());
    json::json_join(&items)
}

/// A text put into its place among texts in order, once.
pub open spec fn placed(sorted: Seq<Seq<char>>, item: Seq<char>) -> Seq<Seq<char>>
    decreases sorted.len(),
{
    if sorted.len() == 0 {
        seq![item]
    } else if sorted.last() == item {
        sorted
    } else if store::text_before(sorted.last(), item) {
        sorted.push(item)
    } else {
        placed(sorted.drop_last(), item).push(sorted.last())
    }
}

/// The first `n` texts, in order, each once.
pub open spec fn in_order(items: Seq<Seq<char>>, n: nat) -> Seq<Seq<char>>
    decreases n,
{
    if n == 0 {
        Seq::empty()
    } else {
        placed(in_order(items, (n - 1) as nat), items[n - 1])
    }
}

pub fn place(sorted: &mut Vec<String>, item: &str)
    ensures
        text::texts(final(sorted)@) == placed(text::texts(old(sorted)@), item@),
    decreases old(sorted)@.len(),
{
    let ghost before = text::texts(sorted@);
    if sorted.len() == 0 {
        sorted.push(item.to_owned());
        assert(text::texts(sorted@) =~= seq![item@]);
        return;
    }
    let at: usize = sorted.len() - 1;
    assert(before.last() == sorted@[at as int]@);
    if text::same_text(sorted[at].as_str(), item) {
        return;
    }
    let last = text::chars_of(sorted[at].as_str());
    let next = text::chars_of(item);
    if store::chars_before(&last, &next) {
        let added = item.to_owned();
        let ghost seen = added@;
        sorted.push(added);
        assert(text::texts(sorted@) =~= before.push(seen));
        return;
    }
    let ghost whole = sorted@;
    if let Some(last) = sorted.pop() {
        let ghost kept = last@;
        assert(text::texts(sorted@) =~= before.drop_last());
        place(sorted, item);
        let ghost inner = text::texts(sorted@);
        sorted.push(last);
        assert(text::texts(sorted@) =~= inner.push(kept));
    }
}

/// Whether texts stand in order, each once.
pub open spec fn is_ordered(items: Seq<Seq<char>>) -> bool {
    forall|i: int, j: int|
        0 <= i < j < items.len() ==> store::text_before(#[trigger] items[i], #[trigger] items[j])
}

proof fn lemma_placed(sorted: Seq<Seq<char>>, item: Seq<char>)
    requires
        is_ordered(sorted),
    ensures
        is_ordered(placed(sorted, item)),
        forall|t: Seq<char>|
            #[trigger] placed(sorted, item).contains(t) <==> sorted.contains(t) || t == item,
    decreases sorted.len(),
{
    let r = placed(sorted, item);
    if sorted.len() == 0 {
        assert(r[0] == item);
    } else if sorted.last() == item {
        assert(sorted[sorted.len() - 1] == item);
    } else if store::text_before(sorted.last(), item) {
        assert forall|i: int, j: int| 0 <= i < j < r.len() implies store::text_before(
            #[trigger] r[i],
            #[trigger] r[j],
        ) by {
            if j == sorted.len() && i < sorted.len() - 1 {
                assert(store::text_before(sorted[i], sorted[sorted.len() - 1]));
                store::lemma_text_order(sorted[i], sorted.last(), item);
            }
        }
        assert forall|t: Seq<char>| #[trigger] r.contains(t) <==> sorted.contains(t) || t
            == item by {
            assert(r[sorted.len() as int] == item);
            if sorted.contains(t) {
                let i = choose|i: int| 0 <= i < sorted.len() && sorted[i] == t;
                assert(r[i] == t);
            }
        }
    } else {
        let front = sorted.drop_last();
        let last = sorted.last();
        assert(is_ordered(front)) by {
            assert(forall|i: int| 0 <= i < front.len() ==> front[i] == sorted[i]);
        }
        lemma_placed(front, item);
        let inner = placed(front, item);
        store::lemma_text_order(item, last, item);
        assert(store::text_before(item, last));
        assert forall|i: int, j: int| 0 <= i < j < r.len() implies store::text_before(
            #[trigger] r[i],
            #[trigger] r[j],
        ) by {
            if j == inner.len() {
                assert(inner.contains(inner[i]));
                if inner[i] != item {
                    let k = choose|k: int| 0 <= k < front.len() && front[k] == inner[i];
                    assert(store::text_before(sorted[k], sorted[sorted.len() - 1]));
                }
            }
        }
        assert forall|t: Seq<char>| #[trigger] r.contains(t) <==> sorted.contains(t) || t
            == item by {
            if inner.contains(t) {
                let i = choose|i: int| 0 <= i < inner.len() && inner[i] == t;
                assert(r[i] == t);
            }
            if sorted.contains(t) {
                let i = choose|i: int| 0 <= i < sorted.len() && sorted[i] == t;
                if i < front.len() {
                    assert(front[i] == t);
                    assert(front.contains(t));
                } else {
                    assert(r[inner.len() as int] == t);
                }
            }
            if front.contains(t) {
                let i = choose|i: int| 0 <= i < front.len() && front[i] == t;
                assert(sorted[i] == t);
            }
            assert(sorted[sorted.len() - 1] == last);
            if t == item {
                assert(inner.contains(item));
            }
            if r.contains(t) {
                let i = choose|i: int| 0 <= i < r.len() && r[i] == t;
                if i < inner.len() {
                    assert(inner[i] == t);
                    assert(inner.contains(t));
                }
            }
        }
    }
}

/// Texts in order are the texts there are, each once, the lesser before the
/// greater.
pub proof fn law_texts_are_ordered(items: Seq<Seq<char>>, n: nat)
    requires
        n <= items.len(),
    ensures
        is_ordered(in_order(items, n)),
        forall|t: Seq<char>|
            #[trigger] in_order(items, n).contains(t) <==> items.take(n as int).contains(t),
    decreases n,
{
    if n > 0 {
        law_texts_are_ordered(items, (n - 1) as nat);
        let before = in_order(items, (n - 1) as nat);
        lemma_placed(before, items[n - 1]);
        let part = items.take(n as int);
        let less = items.take(n - 1);
        assert forall|t: Seq<char>| #[trigger] in_order(items, n).contains(t) <==> part.contains(
            t,
        ) by {
            if part.contains(t) {
                let i = choose|i: int| 0 <= i < part.len() && part[i] == t;
                if i < n - 1 {
                    assert(less[i] == t);
                    assert(less.contains(t));
                }
            }
            if less.contains(t) {
                let i = choose|i: int| 0 <= i < less.len() && less[i] == t;
                assert(part[i] == t);
            }
            assert(part[n - 1] == items[n - 1]);
        }
    }
}

pub open spec fn is_authoritative(event: EventView) -> bool {
    event.protocol == "udp53"@ || event.protocol == "tcp53"@
}

/// The nameservers among the first `n` questions, in order.
pub open spec fn servers_of(events: Seq<EventView>, n: nat) -> Seq<Seq<char>>
    decreases n,
{
    if n == 0 {
        Seq::empty()
    } else if is_authoritative(events[n - 1]) {
        placed(servers_of(events, (n - 1) as nat), events[n - 1].server)
    } else {
        servers_of(events, (n - 1) as nat)
    }
}

pub open spec fn quoted_texts(items: Seq<Seq<char>>) -> Seq<Seq<char>> {
    Seq::new(items.len(), |i: int| json::quoted(items[i]))
}

/// A list of JSON strings, without its brackets.
pub open spec fn quoted_list(items: Seq<Seq<char>>) -> Seq<char> {
    json::joined(quoted_texts(items), items.len())
}

pub fn json_string_list(items: &Vec<String>) -> (r: String)
    ensures
        r@ == quoted_list(text::texts(items@)),
{
    let ghost all = text::texts(items@);
    let mut out: Vec<String> = Vec::new();
    let mut i: usize = 0;
    assert(text::texts(out@) =~= quoted_texts(all).take(0));
    while i < items.len()
        invariant
            i <= items@.len(),
            all == text::texts(items@),
            text::texts(out@) == quoted_texts(all).take(i as int),
        decreases items@.len() - i,
    {
        let ghost before = text::texts(out@);
        let item = json::json_string(items[i].as_str());
        let ghost seen = item@;
        out.push(item);
        assert(text::texts(out@) =~= before.push(seen));
        assert(quoted_texts(all).take(i + 1) =~= before.push(quoted_texts(all)[i as int]));
        i = i + 1;
    }
    assert(quoted_texts(all).take(i as int) =~= quoted_texts(all));
    assert(text::texts(out@).len() == out@.len());
    json::json_join(&out)
}

pub open spec fn candidates_text(events: Seq<EventView>) -> Seq<char> {
    "["@ + quoted_list(servers_of(events, events.len())) + "]"@
}

pub fn nameserver_candidates_json(events: &Vec<DnsTraceEvent>) -> (r: String)
    ensures
        r@ == candidates_text(event_views(events@)),
{
    let ghost all = event_views(events@);
    let mut servers: Vec<String> = Vec::new();
    let mut i: usize = 0;
    assert(text::texts(servers@) =~= Seq::empty());
    while i < events.len()
        invariant
            i <= events@.len(),
            all == event_views(events@),
            text::texts(servers@) == servers_of(all, i as nat),
        decreases events@.len() - i,
    {
        assert(all[i as int] == events@[i as int]@);
        if text::same_text(events[i].protocol, "udp53") || text::same_text(
            events[i].protocol,
            "tcp53",
        ) {
            place(&mut servers, events[i].server.as_str());
        }
        i = i + 1;
    }
    assert(all.len() == events@.len());
    let list = json_string_list(&servers);
    let mut out = "[".to_owned();
    out.append(list.as_str());
    out.append("]");
    out
}

/// A question that went well makes its protocol's status good.
pub proof fn law_one_good_question_is_enough(events: Seq<EventView>, protocol: Seq<char>, at: int)
    requires
        0 <= at < events.len(),
        events[at].protocol == protocol,
        events[at].status == "ok"@,
    ensures
        protocol_status(events, protocol) == "ok"@,
{
    lemma_has_last(events, events.len(), protocol, at);
    assert(ended_with(events, events.len(), protocol, "ok"@));
}

proof fn lemma_has_last(events: Seq<EventView>, n: nat, protocol: Seq<char>, at: int)
    requires
        0 <= at < n <= events.len(),
        events[at].protocol == protocol,
    ensures
        last_status(events, n, protocol) is Some,
    decreases n,
{
    if n - 1 > at {
        lemma_has_last(events, (n - 1) as nat, protocol, at);
    }
}

/// Every part of an attempt is told under its own name.
#[verifier::rlimit(60)]
pub proof fn law_attempt_tells_each_of_its_parts(event: EventView)
    ensures
        text::contains_text(attempt_text(event), "{\"protocol\":\""@ + event.protocol),
        text::contains_text(attempt_text(event), "\",\"server\":\""@ + json::escaped(event.server)),
        text::contains_text(attempt_text(event), "\",\"status\":\""@ + json::escaped(event.status)),
        text::contains_text(
            attempt_text(event),
            "\",\"elapsedMs\":"@ + text::decimal(event.elapsed_ms as nat),
        ),
        text::contains_text(
            attempt_text(event),
            ",\"error\":"@ + json::quoted_or_null(event.error),
        ),
{
    let pieces = seq![
        "{\"protocol\":\""@,
        event.protocol,
        "\",\"server\":\""@,
        json::escaped(event.server),
        "\",\"status\":\""@,
        json::escaped(event.status),
        "\",\"elapsedMs\":"@,
        text::decimal(event.elapsed_ms as nat),
        ",\"error\":"@,
        json::quoted_or_null(event.error),
        "}"@,
    ];
    reveal_with_fuel(json::chained, 12);
    assert(attempt_text(event) == json::chained(pieces, 11));
    json::lemma_chain_holds(pieces, 11, 0);
    json::lemma_chain_holds(pieces, 11, 2);
    json::lemma_chain_holds(pieces, 11, 4);
    json::lemma_chain_holds(pieces, 11, 6);
    json::lemma_chain_holds(pieces, 11, 8);
}

/// What came of each protocol is told under its own name.
#[verifier::rlimit(60)]
pub proof fn law_protocols_are_told_apart(events: Seq<EventView>)
    ensures
        text::contains_text(
            authoritative_text(events),
            "{\"udp53\":\""@ + protocol_status(events, "udp53"@),
        ),
        text::contains_text(
            authoritative_text(events),
            "\",\"tcp53\":\""@ + protocol_status(events, "tcp53"@),
        ),
{
    let pieces = seq![
        "{\"udp53\":\""@,
        protocol_status(events, "udp53"@),
        "\",\"tcp53\":\""@,
        protocol_status(events, "tcp53"@),
        "\"}"@,
    ];
    reveal_with_fuel(json::chained, 6);
    assert(authoritative_text(events) == json::chained(pieces, 5));
    json::lemma_chain_holds(pieces, 5, 0);
    json::lemma_chain_holds(pieces, 5, 2);
}

/// The status of a protocol is that it was not tried exactly where no question went
/// over it; a question that timed out shows, as long as none went well.
pub proof fn law_status_of_a_protocol(events: Seq<EventView>, protocol: Seq<char>)
    ensures
        (forall|i: int| 0 <= i < events.len() ==> (#[trigger] events[i]).protocol != protocol)
            ==> protocol_status(events, protocol) == "not_attempted"@,
        (exists|i: int|
            0 <= i < events.len() && (#[trigger] events[i]).protocol == protocol
                && events[i].status == "timeout"@) && (forall|i: int|
            0 <= i < events.len() && (#[trigger] events[i]).protocol == protocol
                ==> events[i].status != "ok"@) ==> protocol_status(events, protocol) == "timeout"@,
        protocol_status(events, protocol) == "ok"@ ==> exists|i: int|
            0 <= i < events.len() && (#[trigger] events[i]).protocol == protocol
                && events[i].status == "ok"@,
{
    reveal_strlit("ok");
    reveal_strlit("timeout");
    reveal_strlit("not_attempted");
    assert("ok"@.len() == 2 && "timeout"@.len() == 7 && "not_attempted"@.len() == 13);
    lemma_last_status(events, events.len(), protocol);
}

proof fn lemma_last_status(events: Seq<EventView>, n: nat, protocol: Seq<char>)
    requires
        n <= events.len(),
    ensures
        last_status(events, n, protocol) is None <==> forall|i: int|
            0 <= i < n ==> (#[trigger] events[i]).protocol != protocol,
        last_status(events, n, protocol) matches Some(status) ==> exists|i: int|
            0 <= i < n && (#[trigger] events[i]).protocol == protocol && events[i].status == status,
    decreases n,
{
    if n > 0 {
        lemma_last_status(events, (n - 1) as nat, protocol);
        if events[n - 1].protocol != protocol && last_status(events, (n - 1) as nat, protocol)
            is Some {
            let i = choose|i: int|
                0 <= i < n - 1 && (#[trigger] events[i]).protocol == protocol && events[i].status
                    == last_status(events, (n - 1) as nat, protocol)->0;
            assert(events[i].protocol == protocol);
        }
    }
}

/// The nameservers that are listed are those that were asked over UDP or TCP, all
/// of them and each once.
pub proof fn law_every_asked_nameserver_is_listed(events: Seq<EventView>, n: nat)
    requires
        n <= events.len(),
    ensures
        is_ordered(servers_of(events, n)),
        forall|server: Seq<char>| #[trigger]
            servers_of(events, n).contains(server) <==> exists|i: int|
                0 <= i < n && (#[trigger] events[i]).server == server && (events[i].protocol
                    == "udp53"@ || events[i].protocol == "tcp53"@),
    decreases n,
{
    if n > 0 {
        law_every_asked_nameserver_is_listed(events, (n - 1) as nat);
        let before = servers_of(events, (n - 1) as nat);
        let all = servers_of(events, n);
        if is_authoritative(events[n - 1]) {
            lemma_placed(before, events[n - 1].server);
        }
        assert forall|server: Seq<char>| #[trigger] all.contains(server) <==> exists|i: int|
            0 <= i < n && (#[trigger] events[i]).server == server && (events[i].protocol
                == "udp53"@ || events[i].protocol == "tcp53"@) by {
            if all.contains(server) {
                if before.contains(server) {
                    let i = choose|i: int|
                        0 <= i < n - 1 && (#[trigger] events[i]).server == server && (
                        events[i].protocol == "udp53"@ || events[i].protocol == "tcp53"@);
                    assert(events[i].server == server);
                } else {
                    assert(events[n - 1].server == server);
                }
            }
            if exists|i: int|
                0 <= i < n && (#[trigger] events[i]).server == server && (events[i].protocol
                    == "udp53"@ || events[i].protocol == "tcp53"@) {
                let i = choose|i: int|
                    0 <= i < n && (#[trigger] events[i]).server == server && (events[i].protocol
                        == "udp53"@ || events[i].protocol == "tcp53"@);
                if i < n - 1 {
                    assert(events[i].server == server);
                    assert(before.contains(server));
                }
            }
        }
    }
}

/// The status of a question that failed: a message that speaks of a time limit means
/// that it timed out.
pub proof fn law_status_of_a_failure(error: ResolverError)
    ensures
        error_status(error) == "timeout"@ <==> (error matches ResolverError::DnsTransport(message)
            && (text::contains_text(message@, "timed out"@) || text::contains_text(
            message@,
            "timeout"@,
        ) || text::contains_text(message@, "deadline"@))),
        error_status(error) == "invalid_response"@ <==> error is InvalidDnsResponse,
        error_status(error) == "dnssec_failed"@ <==> error is DnssecFailed,
        error_status(error) == "timeout"@ || error_status(error) == "transport_error"@ <==> error
            is DnsTransport,
        error_status(error) != "ok"@,
{
    reveal_strlit("timeout");
    reveal_strlit("transport_error");
    reveal_strlit("invalid_response");
    reveal_strlit("dnssec_failed");
    reveal_strlit("error");
    reveal_strlit("ok");
    assert("timeout"@.len() == 7 && "transport_error"@.len() == 15 && "invalid_response"@.len()
        == 16 && "dnssec_failed"@.len() == 13 && "error"@.len() == 5 && "ok"@.len() == 2);
}

/// A question over HTTPS went well exactly where the response has status 200, and
/// is noted with its server and its time.
pub proof fn law_doh_question_is_noted(
    server: Seq<char>,
    elapsed_ms: u64,
    result: Result<OriginResponse, TransportError>,
)
    ensures
        ({
            let event = doh_event(server, elapsed_ms, result);
            &&& event.protocol == "hns_doh"@
            &&& event.server == server
            &&& event.elapsed_ms == elapsed_ms
            &&& event.status == "ok"@ <==> result is Ok && result->Ok_0.status == 200
            &&& event.error is None <==> result is Ok && result->Ok_0.status == 200
        }),
{
    reveal_strlit("ok");
    reveal_strlit("http_error");
    reveal_strlit("transport_error");
    assert("ok"@.len() == 2 && "http_error"@.len() == 10 && "transport_error"@.len() == 15);
}

} // verus!
