//! The gateway's answers.
use crate::bytes;
use crate::gateway::input;
use crate::gateway::input::{GatewayHttpRequestInput, InputView};
use crate::text;
use crate::transport::types;
use crate::transport::types::{
    DaneDecision, Header, HeaderView, OriginResponse, OriginResponseHead,
};
use vstd::prelude::*;
use vstd::string::*;
use vstd::utf8::*;

verus! {

/// The first lines of an answer.
pub open spec fn head_text(
    status: u16,
    reason: Seq<char>,
    content_type: Option<Seq<char>>,
    body_len: nat,
) -> Seq<char> {
    let head = "HTTP/1.1 "@ + text::decimal(status as nat) + " "@ + reason
        + "\r\nConnection: close\r\nContent-Length: "@ + text::decimal(body_len) + "\r\n"@;
    match content_type {
        Some(content_type) => head + "Content-Type: "@ + content_type + "\r\n"@,
        None => head,
    }
}

fn write_head(status: u16, reason: &str, content_type: Option<&str>, body_len: usize) -> (r: String)
    ensures
        r@ == head_text(
            status,
            reason@,
            match content_type {
                Some(content_type) => Some(content_type@),
                None => None,
            },
            body_len as nat,
        ),
{
    let mut out = "HTTP/1.1 ".to_owned();
    text::push_decimal(&mut out, status as u64);
    out.append(" ");
    out.append(reason);
    out.append("\r\nConnection: close\r\nContent-Length: ");
    text::push_decimal(&mut out, body_len as u64);
    out.append("\r\n");
    if let Some(content_type) = content_type {
        out.append("Content-Type: ");
        out.append(content_type);
        out.append("\r\n");
    }
    out
}

/// An origin's header that the gateway does not pass on: it frames the answer
/// itself, and its own headers are not for an origin to set.
pub open spec fn suppressed(name: Seq<char>) -> bool {
    ||| text::same_ignoring_case(name, "connection"@)
    ||| text::same_ignoring_case(name, "content-length"@)
    ||| text::same_ignoring_case(name, "transfer-encoding"@)
    ||| text::same_ignoring_case(name, "trailer"@)
    ||| text::same_ignoring_case(name, "x-hns-tls-policy"@)
    ||| text::same_ignoring_case(name, "x-hns-resolver-policy"@)
    ||| text::same_ignoring_case(name, "X-HNS-Resolution-Trace"@)
    ||| text::same_ignoring_case(name, "X-HNS-Resolver-Mode"@)
    ||| text::same_ignoring_case(name, "X-HNS-DoH-Fallback"@)
}

pub fn suppressed_origin_response_header(name: &str) -> (r: bool)
    ensures
        r == suppressed(name@),
{
    text::eq_ignore_case(name, "connection") || text::eq_ignore_case(name, "content-length")
        || text::eq_ignore_case(name, "transfer-encoding") || text::eq_ignore_case(name, "trailer")
        || text::eq_ignore_case(name, "x-hns-tls-policy") || text::eq_ignore_case(
        name,
        "x-hns-resolver-policy",
    ) || text::eq_ignore_case(name, "X-HNS-Resolution-Trace") || text::eq_ignore_case(
        name,
        "X-HNS-Resolver-Mode",
    ) || text::eq_ignore_case(name, "X-HNS-DoH-Fallback")
}

/// What the browser is told of how the certificate was accepted.
pub open spec fn tls_policy(decision: DaneDecision) -> Option<Seq<char>> {
    match decision {
        DaneDecision::Matched(_) => Some("dane"@),
        DaneDecision::WebPkiFallback => Some("webpki-fallback"@),
        DaneDecision::Failed => Some("failed"@),
        DaneDecision::NoTlsa => None,
    }
}

pub fn hns_tls_policy_header(decision: &DaneDecision) -> (r: Option<&'static str>)
    ensures
        tls_policy(*decision) == (match r {
            Some(policy) => Some(policy@),
            None => None,
        }),
{
    match decision {
        DaneDecision::Matched(_) => Some("dane"),
        DaneDecision::WebPkiFallback => Some("webpki-fallback"),
        DaneDecision::Failed => Some("failed"),
        DaneDecision::NoTlsa => None,
    }
}

pub open spec fn mode_in(trace: Seq<char>) -> Seq<char> {
    if text::contains_text(trace, "\"mode\":\"strict\""@) {
        "strict"@
    } else {
        "compatibility"@
    }
}

pub fn trace_mode(trace_json: &str) -> (r: &'static str)
    ensures
        r@ == mode_in(trace_json@),
{
    if text::has_text(trace_json, "\"mode\":\"strict\"") {
        "strict"
    } else {
        "compatibility"
    }
}

pub open spec fn fallback_in(trace: Seq<char>) -> Seq<char> {
    if text::contains_text(trace, "\"used\":true"@) {
        "yes"@
    } else {
        "no"@
    }
}

pub fn trace_doh_fallback(trace_json: &str) -> (r: &'static str)
    ensures
        r@ == fallback_in(trace_json@),
{
    if text::has_text(trace_json, "\"used\":true") {
        "yes"
    } else {
        "no"
    }
}

/// A head followed by what the trace of the resolution says.
pub open spec fn with_trace(out: Seq<char>, trace: Seq<char>) -> Seq<char> {
    out + "X-HNS-Resolver-Mode: "@ + mode_in(trace) + "\r\nX-HNS-DoH-Fallback: "@ + fallback_in(
        trace,
    ) + "\r\nX-HNS-Resolution-Trace: "@ + trace + "\r\n"@
}

fn write_trace(out: &mut String, trace_json: &str)
    ensures
        final(out)@ == with_trace(old(out)@, trace_json@),
{
    out.append("X-HNS-Resolver-Mode: ");
    out.append(trace_mode(trace_json));
    out.append("\r\nX-HNS-DoH-Fallback: ");
    out.append(trace_doh_fallback(trace_json));
    out.append("\r\nX-HNS-Resolution-Trace: ");
    out.append(trace_json);
    out.append("\r\n");
}

/// A head followed by the gateway's word on the certificate and on the
/// resolver.
pub open spec fn with_policies(
    out: Seq<char>,
    decision: DaneDecision,
    resolver_policy: Option<Seq<char>>,
) -> Seq<char> {
    let told = match tls_policy(decision) {
        Some(policy) => out + "X-HNS-TLS-Policy: "@ + policy + "\r\n"@,
        None => out,
    };
    match resolver_policy {
        Some(policy) => told + "X-HNS-Resolver-Policy: "@ + policy + "\r\n"@,
        None => told,
    }
}

pub open spec fn str_view(value: Option<&str>) -> Option<Seq<char>> {
    match value {
        Some(value) => Some(value@),
        None => None,
    }
}

fn write_policies(out: &mut String, decision: &DaneDecision, resolver_policy: Option<&str>)
    ensures
        final(out)@ == with_policies(old(out)@, *decision, str_view(resolver_policy)),
{
    if let Some(policy) = hns_tls_policy_header(decision) {
        out.append("X-HNS-TLS-Policy: ");
        out.append(policy);
        out.append("\r\n");
    }
    if let Some(policy) = resolver_policy {
        out.append("X-HNS-Resolver-Policy: ");
        out.append(policy);
        out.append("\r\n");
    }
}

/// A head followed by the first `n` of the origin's headers that are passed on.
pub open spec fn with_origin_headers(out: Seq<char>, headers: Seq<HeaderView>, n: nat) -> Seq<char>
    decreases n,
{
    if n == 0 {
        out
    } else {
        let before = with_origin_headers(out, headers, (n - 1) as nat);
        let header = headers[n - 1];
        if suppressed(header.0) {
            before
        } else {
            before + header.0 + ": "@ + header.1 + "\r\n"@
        }
    }
}

/// The head of the answer for an origin's response.
pub open spec fn origin_head_text(
    status: u16,
    headers: Seq<HeaderView>,
    body_len: nat,
    decision: DaneDecision,
    resolver_policy: Option<Seq<char>>,
    trace: Seq<char>,
) -> Seq<char> {
    with_trace(
        with_policies(
            with_origin_headers(
                head_text(status, "OK"@, None, body_len),
                headers,
                headers.len(),
            ),
            decision,
            resolver_policy,
        ),
        trace,
    ) + "\r\n"@
}

fn write_origin_head(
    status: u16,
    headers: &Vec<Header>,
    body_len: usize,
    decision: &DaneDecision,
    resolver_policy: Option<&str>,
    trace_json: &str,
) -> (r: String)
    ensures
        r@ == origin_head_text(
            status,
            types::header_views(headers@),
            body_len as nat,
            *decision,
            str_view(resolver_policy),
            trace_json@,
        ),
{
    let mut out = write_head(status, "OK", None, body_len);
    let ghost start = out@;
    let ghost all = types::header_views(headers@);
    let mut i: usize = 0;
    while i < headers.len()
        invariant
            i <= headers@.len(),
            all == types::header_views(headers@),
            out@ == with_origin_headers(start, all, i as nat),
        decreases headers@.len() - i,
    {
        assert(all[i as int] == (headers@[i as int].0@, headers@[i as int].1@));
        if !suppressed_origin_response_header(headers[i].0.as_str()) {
            out.append(headers[i].0.as_str());
            out.append(": ");
            out.append(headers[i].1.as_str());
            out.append("\r\n");
        }
        i = i + 1;
    }
    assert(all.len() == headers@.len());
    write_policies(&mut out, decision, resolver_policy);
    write_trace(&mut out, trace_json);
    out.append("\r\n");
    out
}

pub fn origin_response_head_with_resolver_policy_and_trace(
    response: &OriginResponseHead,
    resolver_policy: Option<&str>,
    trace_json: &str,
) -> (r: Vec<u8>)
    ensures
        r@ == encode_utf8(
            origin_head_text(
                response.status,
                types::header_views(response.headers@),
                response.body_len as nat,
                response.dane_decision,
                str_view(resolver_policy),
                trace_json@,
            ),
        ),
{
    let out = write_origin_head(
        response.status,
        &response.headers,
        response.body_len,
        &response.dane_decision,
        resolver_policy,
        trace_json,
    );
    out.as_str().as_bytes_vec()
}

pub fn origin_response_with_resolver_policy_and_trace(
    response: OriginResponse,
    resolver_policy: Option<&str>,
    trace_json: &str,
) -> (r: Vec<u8>)
    ensures
        r@ == encode_utf8(
            origin_head_text(
                response.status,
                types::header_views(response.headers@),
                response.body@.len(),
                response.dane_decision,
                str_view(resolver_policy),
                trace_json@,
            ),
        ) + response.body@,
{
    let out = write_origin_head(
        response.status,
        &response.headers,
        response.body.len(),
        &response.dane_decision,
        resolver_policy,
        trace_json,
    );
    let mut bytes = out.as_str().as_bytes_vec();
    let mut body = response.body;
    bytes.append(&mut body);
    bytes
}

/// A text without the empty line at its end.
pub open spec fn without_head_end(head: Seq<char>) -> Seq<char> {
    let n = head.len() as int;
    if n >= 4 && head.skip(n - 4) == seq!['\r', '\n', '\r', '\n'] {
        head.take(n - 4)
    } else {
        head
    }
}

/// A head followed by those of the lines from the second to the `n`th that are
/// passed on.
pub open spec fn with_lines(out: Seq<char>, lines: Seq<Seq<char>>, n: nat) -> Seq<char>
    decreases n,
{
    if n <= 1 {
        out
    } else {
        let before = with_lines(out, lines, (n - 1) as nat);
        let line = lines[n - 1];
        let at = text::find(line, ':');
        if at < line.len() && !suppressed(text::trim(line.take(at as int))) {
            before + line + "\r\n"@
        } else {
            before
        }
    }
}

/// The head of the answer that opens a tunnel, for the origin's own head.
pub open spec fn upgrade_text(
    head: Seq<char>,
    decision: DaneDecision,
    resolver_policy: Option<Seq<char>>,
    trace: Seq<char>,
) -> Seq<char> {
    let lines = text::lines(without_head_end(head));
    with_trace(
        with_policies(
            with_lines(lines[0] + "\r\n"@, lines, lines.len()),
            decision,
            resolver_policy,
        ),
        trace,
    ) + "\r\n"@
}

/// The head of the answer that opens a tunnel, where the text of the origin's
/// head is known.
pub fn upgrade_head_of_text(
    head: &str,
    decision: &DaneDecision,
    resolver_policy: Option<&str>,
    trace_json: &str,
) -> (r: Vec<u8>)
    ensures
        r@ == encode_utf8(
            upgrade_text(head@, *decision, str_view(resolver_policy), trace_json@),
        ),
{
    let cs = text::chars_of(head);
    let n: usize = cs.len();
    let ends = n >= 4 && cs[n - 4] == '\r' && cs[n - 3] == '\n' && cs[n - 2] == '\r' && cs[n - 1]
        == '\n';
    proof {
        if n >= 4 {
            let end = cs@.skip(n - 4);
            assert(end[0] == cs@[n - 4]);
            assert(end[1] == cs@[n - 3]);
            assert(end[2] == cs@[n - 2]);
            assert(end[3] == cs@[n - 1]);
            if ends {
                assert(end =~= seq!['\r', '\n', '\r', '\n']);
            }
        }
    }
    let content = if ends {
        text::chars_range(&cs, 0, n - 4)
    } else {
        text::chars_range(&cs, 0, n)
    };
    assert(content@ =~= without_head_end(head@));
    let lines = text::split_lines(&content);
    let ghost all = text::lines(without_head_end(head@));
    assert(text::views(lines@).len() == lines@.len());
    assert(text::views(lines@)[0] == lines@[0]@);
    let mut out = text::text_of(&lines[0]);
    out.append("\r\n");
    let ghost start = out@;
    let mut i: usize = 1;
    while i < lines.len()
        invariant
            1 <= i <= lines@.len(),
            text::views(lines@) == all,
            all.len() == lines@.len(),
            out@ == with_lines(start, all, i as nat),
        decreases lines@.len() - i,
    {
        assert(text::views(lines@)[i as int] == lines@[i as int]@);
        let line = &lines[i];
        let at: usize = text::find_char(line, ':');
        if at < line.len() {
            let name = text::chars_range(line, 0, at);
            assert(name@ =~= line@.take(at as int));
            let name = text::trimmed(&name);
            let name = text::text_of(&name);
            if !suppressed_origin_response_header(name.as_str()) {
                let line = text::text_of(line);
                out.append(line.as_str());
                out.append("\r\n");
            }
        }
        i = i + 1;
    }
    write_policies(&mut out, decision, resolver_policy);
    write_trace(&mut out, trace_json);
    out.append("\r\n");
    out.as_str().as_bytes_vec()
}

pub fn upgrade_response_head_with_resolver_policy_and_trace(
    response_head: &Vec<u8>,
    decision: &DaneDecision,
    resolver_policy: Option<&str>,
    trace_json: &str,
) -> (r: Vec<u8>)
    ensures
        r@ == encode_utf8(
            upgrade_text(
                bytes::lossy_text(response_head@),
                *decision,
                str_view(resolver_policy),
                trace_json@,
            ),
        ),
{
    let head = bytes::text_from_bytes(response_head.as_slice());
    upgrade_head_of_text(head.as_str(), decision, resolver_policy, trace_json)
}

/// The body of an answer of the gateway's own.
pub open spec fn plain_body(
    status: u16,
    reason: Seq<char>,
    detail: Seq<char>,
    address: Option<Seq<char>>,
) -> Seq<char> {
    (match address {
        Some(address) => address + "\n"@ + text::decimal(status as nat),
        None => text::decimal(status as nat),
    }) + " "@ + reason + "\n"@ + detail + "\n"@
}

pub fn plain_response_body(status: u16, reason: &str, detail: &str, address: Option<&str>) -> (r:
    Vec<u8>)
    ensures
        r@ == encode_utf8(plain_body(status, reason@, detail@, str_view(address))),
{
    let mut out = match address {
        Some(address) => {
            let mut out = address.to_owned();
            out.append("\n");
            text::push_decimal(&mut out, status as u64);
            out
        },
        None => text::decimal_text(status as u64),
    };
    out.append(" ");
    out.append(reason);
    out.append("\n");
    out.append(detail);
    out.append("\n");
    out.as_str().as_bytes_vec()
}

/// The head of an answer of the gateway's own.
pub open spec fn plain_head(
    status: u16,
    reason: Seq<char>,
    body_len: nat,
    trace: Option<Seq<char>>,
) -> Seq<char> {
    let head = head_text(status, reason, Some("text/plain; charset=utf-8"@), body_len);
    (match trace {
        Some(trace) => with_trace(head, trace),
        None => head,
    }) + "\r\n"@
}

fn write_plain_head(status: u16, reason: &str, body_len: usize, trace_json: Option<&str>) -> (r:
    Vec<u8>)
    ensures
        r@ == encode_utf8(plain_head(status, reason@, body_len as nat, str_view(trace_json))),
{
    let mut out = write_head(status, reason, Some("text/plain; charset=utf-8"), body_len);
    if let Some(trace_json) = trace_json {
        write_trace(&mut out, trace_json);
    }
    out.append("\r\n");
    out.as_str().as_bytes_vec()
}

/// An answer of the gateway's own: its head, and its body.
pub open spec fn plain_parts(
    status: u16,
    reason: Seq<char>,
    detail: Seq<char>,
    address: Option<Seq<char>>,
    trace: Option<Seq<char>>,
) -> (Seq<u8>, Seq<u8>) {
    let body = encode_utf8(plain_body(status, reason, detail, address));
    (encode_utf8(plain_head(status, reason, body.len(), trace)), body)
}

/// An answer of the gateway's own, as a head and a body.
pub fn plain_response_parts(
    status: u16,
    reason: &str,
    detail: &str,
    address: Option<&str>,
    trace_json: Option<&str>,
) -> (r: (Vec<u8>, Vec<u8>))
    ensures
        (r.0@, r.1@) == plain_parts(
            status,
            reason@,
            detail@,
            str_view(address),
            str_view(trace_json),
        ),
{
    let body = plain_response_body(status, reason, detail, address);
    let head = write_plain_head(status, reason, body.len(), trace_json);
    (head, body)
}

pub fn plain_response_with_address_and_optional_trace(
    status: u16,
    reason: &str,
    detail: &str,
    address: Option<&str>,
    trace_json: Option<&str>,
) -> (r: Vec<u8>)
    ensures
        r@ == plain_parts(
            status,
            reason@,
            detail@,
            str_view(address),
            str_view(trace_json),
        ).0 + plain_parts(
            status,
            reason@,
            detail@,
            str_view(address),
            str_view(trace_json),
        ).1,
{
    let (mut head, mut body) = plain_response_parts(status, reason, detail, address, trace_json);
    head.append(&mut body);
    head
}

/// The answer to a request of the browser's, as a head and a body.
pub open spec fn plain_for(
    input: InputView,
    status: u16,
    reason: Seq<char>,
    detail: Seq<char>,
    trace: Option<Seq<char>>,
) -> (Seq<u8>, Seq<u8>) {
    plain_parts(status, reason, detail, Some(input::address_of(input)), trace)
}

pub fn plain_response_for_request(
    input: &GatewayHttpRequestInput<'_>,
    status: u16,
    reason: &str,
    detail: &str,
    trace_json: Option<&str>,
) -> (r: (Vec<u8>, Vec<u8>))
    ensures
        (r.0@, r.1@) == plain_for(input@, status, reason@, detail@, str_view(trace_json)),
{
    let address = input::gateway_request_address(input);
    plain_response_parts(status, reason, detail, Some(address.as_str()), trace_json)
}

/// What an origin says of the gateway's own headers is never passed on.
pub proof fn law_gateway_headers_are_not_the_origins(name: Seq<char>)
    requires
        text::lower(name) == text::lower("X-HNS-TLS-Policy"@) || text::lower(name) == text::lower(
            "X-HNS-Resolver-Policy"@,
        ) || text::lower(name) == text::lower("X-HNS-Resolution-Trace"@) || text::lower(name)
            == text::lower("X-HNS-Resolver-Mode"@) || text::lower(name) == text::lower(
            "X-HNS-DoH-Fallback"@,
        ),
    ensures
        suppressed(name),
{
    reveal_strlit("X-HNS-TLS-Policy");
    reveal_strlit("x-hns-tls-policy");
    reveal_strlit("X-HNS-Resolver-Policy");
    reveal_strlit("x-hns-resolver-policy");
    assert(text::lower("X-HNS-TLS-Policy"@) =~= text::lower("x-hns-tls-policy"@));
    assert(text::lower("X-HNS-Resolver-Policy"@) =~= text::lower("x-hns-resolver-policy"@));
}

/// The length that an answer of the gateway's own announces is that of its
/// body.
pub proof fn law_plain_answer_announces_its_length(
    status: u16,
    reason: Seq<char>,
    detail: Seq<char>,
    address: Option<Seq<char>>,
    trace: Option<Seq<char>>,
)
    ensures
        plain_parts(status, reason, detail, address, trace).0 == encode_utf8(
            plain_head(
                status,
                reason,
                plain_parts(status, reason, detail, address, trace).1.len(),
                trace,
            ),
        ),
{
}

/// How an origin framed its answer is never passed on.
pub proof fn law_framing_is_not_the_origins(name: Seq<char>)
    requires
        text::lower(name) == text::lower("Connection"@) || text::lower(name) == text::lower(
            "Content-Length"@,
        ) || text::lower(name) == text::lower("Transfer-Encoding"@) || text::lower(name)
            == text::lower("Trailer"@),
    ensures
        suppressed(name),
{
    reveal_strlit("Connection");
    reveal_strlit("connection");
    reveal_strlit("Content-Length");
    reveal_strlit("content-length");
    reveal_strlit("Transfer-Encoding");
    reveal_strlit("transfer-encoding");
    reveal_strlit("Trailer");
    reveal_strlit("trailer");
    assert(text::lower("Connection"@) =~= text::lower("connection"@));
    assert(text::lower("Content-Length"@) =~= text::lower("content-length"@));
    assert(text::lower("Transfer-Encoding"@) =~= text::lower("transfer-encoding"@));
    assert(text::lower("Trailer"@) =~= text::lower("trailer"@));
}

proof fn lemma_gateway_names()
    ensures
        text::lower("connection"@) == "connection"@,
        text::lower("content-length"@) == "content-length"@,
        text::lower("transfer-encoding"@) == "transfer-encoding"@,
        text::lower("trailer"@) == "trailer"@,
        text::lower("x-hns-tls-policy"@) == "x-hns-tls-policy"@,
        text::lower("x-hns-resolver-policy"@) == "x-hns-resolver-policy"@,
        text::lower("X-HNS-Resolution-Trace"@) == "x-hns-resolution-trace"@,
        text::lower("X-HNS-Resolver-Mode"@) == "x-hns-resolver-mode"@,
        text::lower("X-HNS-DoH-Fallback"@) == "x-hns-doh-fallback"@,
{
    reveal_strlit("connection");
    reveal_strlit("content-length");
    reveal_strlit("transfer-encoding");
    reveal_strlit("trailer");
    reveal_strlit("x-hns-tls-policy");
    reveal_strlit("x-hns-resolver-policy");
    reveal_strlit("X-HNS-Resolution-Trace");
    reveal_strlit("X-HNS-Resolver-Mode");
    reveal_strlit("X-HNS-DoH-Fallback");
    reveal_strlit("x-hns-resolution-trace");
    reveal_strlit("x-hns-resolver-mode");
    reveal_strlit("x-hns-doh-fallback");
    assert(text::lower("connection"@) =~= "connection"@);
    assert(text::lower("content-length"@) =~= "content-length"@);
    assert(text::lower("transfer-encoding"@) =~= "transfer-encoding"@);
    assert(text::lower("trailer"@) =~= "trailer"@);
    assert(text::lower("x-hns-tls-policy"@) =~= "x-hns-tls-policy"@);
    assert(text::lower("x-hns-resolver-policy"@) =~= "x-hns-resolver-policy"@);
    assert(text::lower("X-HNS-Resolution-Trace"@) =~= "x-hns-resolution-trace"@);
    assert(text::lower("X-HNS-Resolver-Mode"@) =~= "x-hns-resolver-mode"@);
    assert(text::lower("X-HNS-DoH-Fallback"@) =~= "x-hns-doh-fallback"@);
}

/// Whether a name, letters taken in either case, is one that the gateway writes
/// itself.
pub open spec fn is_gateways_own(name: Seq<char>) -> bool {
    let low = text::lower(name);
    ||| low == "connection"@
    ||| low == "content-length"@
    ||| low == "transfer-encoding"@
    ||| low == "trailer"@
    ||| low == "x-hns-tls-policy"@
    ||| low == "x-hns-resolver-policy"@
    ||| low == "x-hns-resolution-trace"@
    ||| low == "x-hns-resolver-mode"@
    ||| low == "x-hns-doh-fallback"@
}

/// An origin's header is held back exactly where its name is one of the nine that
/// the gateway writes itself.
pub proof fn law_what_is_held_back(name: Seq<char>)
    ensures
        suppressed(name) <==> is_gateways_own(name),
{
    lemma_gateway_names();
}

proof fn lemma_origin_headers_extend(out: Seq<char>, headers: Seq<HeaderView>, n: nat, m: nat)
    requires
        n <= m <= headers.len(),
    ensures
        with_origin_headers(out, headers, n).len() <= with_origin_headers(out, headers, m).len(),
        with_origin_headers(out, headers, m).take(
            with_origin_headers(out, headers, n).len() as int,
        ) == with_origin_headers(out, headers, n),
    decreases m,
{
    let whole = with_origin_headers(out, headers, m);
    let part = with_origin_headers(out, headers, n);
    if n < m {
        lemma_origin_headers_extend(out, headers, n, (m - 1) as nat);
        let before = with_origin_headers(out, headers, (m - 1) as nat);
        assert(whole.take(before.len() as int) =~= before);
        assert(whole.take(part.len() as int) =~= before.take(part.len() as int));
    } else {
        assert(whole.take(whole.len() as int) =~= whole);
    }
}

proof fn lemma_origin_header_stands(out: Seq<char>, headers: Seq<HeaderView>, i: int)
    requires
        0 <= i < headers.len(),
        !suppressed(headers[i].0),
    ensures
        ({
            let whole = with_origin_headers(out, headers, headers.len());
            let at = with_origin_headers(out, headers, i as nat).len() as int;
            let line = headers[i].0 + ": "@ + headers[i].1 + "\r\n"@;
            &&& at + line.len() == with_origin_headers(out, headers, (i + 1) as nat).len()
            &&& at + line.len() <= whole.len()
            &&& whole.subrange(at, at + line.len()) == line
        }),
{
    let whole = with_origin_headers(out, headers, headers.len());
    let before = with_origin_headers(out, headers, i as nat);
    let after = with_origin_headers(out, headers, (i + 1) as nat);
    let line = headers[i].0 + ": "@ + headers[i].1 + "\r\n"@;
    assert(after =~= before + line);
    lemma_origin_headers_extend(out, headers, (i + 1) as nat, headers.len());
    assert(whole.subrange(before.len() as int, after.len() as int) =~= whole.take(
        after.len() as int,
    ).skip(before.len() as int));
    assert(after.skip(before.len() as int) =~= line);
}

/// Every header of the origin that is not the gateway's own reaches the browser,
/// name and value unchanged, in the order in which the origin sent them. The
/// result says where the two lines begin.
pub proof fn law_origin_headers_reach_the_browser(
    status: u16,
    headers: Seq<HeaderView>,
    body_len: nat,
    decision: DaneDecision,
    resolver_policy: Option<Seq<char>>,
    trace: Seq<char>,
    i: int,
    j: int,
) -> (at: (int, int))
    requires
        0 <= i <= j < headers.len(),
        !is_gateways_own(headers[i].0),
        !is_gateways_own(headers[j].0),
    ensures
        ({
            let told = origin_head_text(
                status,
                headers,
                body_len,
                decision,
                resolver_policy,
                trace,
            );
            let first = headers[i].0 + ": "@ + headers[i].1 + "\r\n"@;
            let second = headers[j].0 + ": "@ + headers[j].1 + "\r\n"@;
            &&& 0 <= at.0 && at.0 + first.len() <= told.len()
            &&& 0 <= at.1 && at.1 + second.len() <= told.len()
            &&& told.subrange(at.0, at.0 + first.len()) == first
            &&& told.subrange(at.1, at.1 + second.len()) == second
            &&& i < j ==> at.0 + first.len() <= at.1
        }),
{
    let head = head_text(status, "OK"@, None, body_len);
    let lines = with_origin_headers(head, headers, headers.len());
    let told = origin_head_text(status, headers, body_len, decision, resolver_policy, trace);
    law_what_is_held_back(headers[i].0);
    law_what_is_held_back(headers[j].0);
    lemma_origin_header_stands(head, headers, i);
    lemma_origin_header_stands(head, headers, j);
    if i < j {
        lemma_origin_headers_extend(head, headers, (i + 1) as nat, j as nat);
    }
    assert(told.take(lines.len() as int) =~= lines);
    let p = with_origin_headers(head, headers, i as nat).len() as int;
    let q = with_origin_headers(head, headers, j as nat).len() as int;
    let first = headers[i].0 + ": "@ + headers[i].1 + "\r\n"@;
    let second = headers[j].0 + ": "@ + headers[j].1 + "\r\n"@;
    assert(told.subrange(p, p + first.len()) =~= lines.subrange(p, p + first.len()));
    assert(told.subrange(q, q + second.len()) =~= lines.subrange(q, q + second.len()));
    (p, q)
}

proof fn lemma_answer_lines(status: u16, body_len: nat)
    ensures
        ({
            let end = seq!['\r', '\n'];
            let first = "HTTP/1.1 "@ + text::decimal(status as nat) + " OK"@;
            let second = "Connection: close"@;
            let third = "Content-Length: "@ + text::decimal(body_len);
            &&& head_text(status, "OK"@, None, body_len) == first + end + second + end + third + end
            &&& !first.contains('\r')
            &&& !second.contains('\r')
            &&& !third.contains('\r')
        }),
{
    reveal_strlit("HTTP/1.1 ");
    reveal_strlit(" OK");
    reveal_strlit("OK");
    reveal_strlit(" ");
    reveal_strlit("\r\n");
    reveal_strlit("Connection: close");
    reveal_strlit("Content-Length: ");
    reveal_strlit("\r\nConnection: close\r\nContent-Length: ");
    let end = seq!['\r', '\n'];
    let digits = text::decimal(status as nat);
    let first = "HTTP/1.1 "@ + digits + " OK"@;
    let second = "Connection: close"@;
    let third = "Content-Length: "@ + text::decimal(body_len);
    assert(" OK"@ =~= " "@ + "OK"@);
    assert("\r\nConnection: close\r\nContent-Length: "@ =~= end + second + end
        + "Content-Length: "@);
    assert("\r\n"@ =~= end);
    assert(head_text(status, "OK"@, None, body_len) =~= first + end + second + end + third + end);
    text::lemma_decimal_digits(status as nat);
    text::lemma_decimal_digits(body_len);
    if first.contains('\r') {
        let i = choose|i: int| 0 <= i < first.len() && first[i] == '\r';
        if 9 <= i < 9 + digits.len() {
            assert(first[i] == digits[i - 9]);
        }
    }
    if third.contains('\r') {
        let i = choose|i: int| 0 <= i < third.len() && third[i] == '\r';
        if i >= 16 {
            assert(third[i] == text::decimal(body_len)[i - 16]);
        }
    }
}

/// The answer for an origin's response has the origin's status, closes the
/// connection and announces the length of the body that it carries.
pub proof fn law_answer_has_the_origins_status(
    status: u16,
    headers: Seq<HeaderView>,
    body_len: nat,
    decision: DaneDecision,
    resolver_policy: Option<Seq<char>>,
    trace: Seq<char>,
)
    ensures
        ({
            let lines = text::lines(
                origin_head_text(status, headers, body_len, decision, resolver_policy, trace),
            );
            &&& lines.len() > 3
            &&& lines[0] == "HTTP/1.1 "@ + text::decimal(status as nat) + " OK"@
            &&& lines[1] == "Connection: close"@
            &&& lines[2] == "Content-Length: "@ + text::decimal(body_len)
        }),
{
    let head = head_text(status, "OK"@, None, body_len);
    let passed = with_origin_headers(head, headers, headers.len());
    let told = origin_head_text(status, headers, body_len, decision, resolver_policy, trace);
    lemma_origin_headers_extend(head, headers, 0, headers.len());
    lemma_answer_lines(status, body_len);
    assert(told.take(passed.len() as int) =~= passed);
    assert(told.take(head.len() as int) =~= passed.take(head.len() as int));
    let tail = told.skip(head.len() as int);
    assert(told =~= head + tail);
    let first = "HTTP/1.1 "@ + text::decimal(status as nat) + " OK"@;
    let second = "Connection: close"@;
    let third = "Content-Length: "@ + text::decimal(body_len);
    let end = seq!['\r', '\n'];
    assert(head + tail =~= first + end + (second + end + (third + end + tail)));
    text::law_lines_undo_joining(first, second + end + (third + end + tail));
    text::law_lines_undo_joining(second, third + end + tail);
    text::law_lines_undo_joining(third, tail);
    assert(text::lines(tail).len() > 0);
}

/// How the certificate was accepted, and by what policy the name was resolved, is
/// told to the browser in the gateway's own headers, next to the resolution's
/// trace.
pub proof fn law_policies_are_told(
    out: Seq<char>,
    decision: DaneDecision,
    resolver_policy: Option<Seq<char>>,
    trace: Seq<char>,
)
    ensures
        with_trace(with_policies(out, decision, resolver_policy), trace) == out + (match decision {
            DaneDecision::Matched(_) => "X-HNS-TLS-Policy: dane\r\n"@,
            DaneDecision::WebPkiFallback => "X-HNS-TLS-Policy: webpki-fallback\r\n"@,
            DaneDecision::Failed => "X-HNS-TLS-Policy: failed\r\n"@,
            DaneDecision::NoTlsa => Seq::empty(),
        }) + (match resolver_policy {
            Some(policy) => "X-HNS-Resolver-Policy: "@ + policy + "\r\n"@,
            None => Seq::empty(),
        }) + "X-HNS-Resolver-Mode: "@ + mode_in(trace) + "\r\n"@ + "X-HNS-DoH-Fallback: "@
            + fallback_in(trace) + "\r\n"@ + "X-HNS-Resolution-Trace: "@ + trace + "\r\n"@,
{
    reveal_strlit("\r\n");
    reveal_strlit("dane");
    reveal_strlit("webpki-fallback");
    reveal_strlit("failed");
    reveal_strlit("X-HNS-TLS-Policy: ");
    reveal_strlit("X-HNS-TLS-Policy: dane\r\n");
    reveal_strlit("X-HNS-TLS-Policy: webpki-fallback\r\n");
    reveal_strlit("X-HNS-TLS-Policy: failed\r\n");
    reveal_strlit("\r\nX-HNS-DoH-Fallback: ");
    reveal_strlit("X-HNS-DoH-Fallback: ");
    reveal_strlit("\r\nX-HNS-Resolution-Trace: ");
    reveal_strlit("X-HNS-Resolution-Trace: ");
    assert("X-HNS-TLS-Policy: "@ + "dane"@ + "\r\n"@ =~= "X-HNS-TLS-Policy: dane\r\n"@);
    assert("X-HNS-TLS-Policy: "@ + "webpki-fallback"@ + "\r\n"@
        =~= "X-HNS-TLS-Policy: webpki-fallback\r\n"@);
    assert("X-HNS-TLS-Policy: "@ + "failed"@ + "\r\n"@ =~= "X-HNS-TLS-Policy: failed\r\n"@);
    assert("\r\nX-HNS-DoH-Fallback: "@ =~= "\r\n"@ + "X-HNS-DoH-Fallback: "@);
    assert("\r\nX-HNS-Resolution-Trace: "@ =~= "\r\n"@ + "X-HNS-Resolution-Trace: "@);
    assert(with_trace(with_policies(out, decision, resolver_policy), trace) =~= out + (
    match decision {
        DaneDecision::Matched(_) => "X-HNS-TLS-Policy: dane\r\n"@,
        DaneDecision::WebPkiFallback => "X-HNS-TLS-Policy: webpki-fallback\r\n"@,
        DaneDecision::Failed => "X-HNS-TLS-Policy: failed\r\n"@,
        DaneDecision::NoTlsa => Seq::empty(),
    }) + (match resolver_policy {
        Some(policy) => "X-HNS-Resolver-Policy: "@ + policy + "\r\n"@,
        None => Seq::empty(),
    }) + "X-HNS-Resolver-Mode: "@ + mode_in(trace) + "\r\n"@ + "X-HNS-DoH-Fallback: "@
        + fallback_in(trace) + "\r\n"@ + "X-HNS-Resolution-Trace: "@ + trace + "\r\n"@);
}

/// The header lines of an origin that agrees to switch reach the browser as they
/// came, but for those that the gateway holds back.
pub proof fn law_upgrade_lines_reach_the_browser(
    out: Seq<char>,
    lines: Seq<Seq<char>>,
    n: nat,
    i: int,
)
    requires
        n <= lines.len(),
        1 <= i < n,
        lines[i].contains(':'),
        !suppressed(text::trim(lines[i].take(text::find(lines[i], ':') as int))),
    ensures
        text::contains_text(with_lines(out, lines, n), lines[i] + "\r\n"@),
    decreases n,
{
    let before = with_lines(out, lines, (n - 1) as nat);
    let whole = with_lines(out, lines, n);
    let wanted = lines[i] + "\r\n"@;
    text::lemma_find(lines[i], ':');
    let at_colon = choose|k: int| 0 <= k < lines[i].len() && lines[i][k] == ':';
    assert(text::find(lines[i], ':') < lines[i].len());
    if i == n - 1 {
        assert(whole.subrange(before.len() as int, (before.len() + wanted.len()) as int)
            =~= wanted);
        assert(text::occurs_at(whole, wanted, before.len() as int));
    } else {
        law_upgrade_lines_reach_the_browser(out, lines, (n - 1) as nat, i);
        let at = choose|at: int| text::occurs_at(before, wanted, at);
        assert(whole.subrange(at, at + wanted.len()) =~= before.subrange(at, at + wanted.len()));
        assert(text::occurs_at(whole, wanted, at));
    }
}

/// What is told of a certificate: that it matched its association, that the web's
/// rules stood in, or that it failed; nothing where there is no association.
pub proof fn law_certificate_policy_is_told(decision: DaneDecision)
    ensures
        tls_policy(decision) == Some("dane"@) <==> decision is Matched,
        tls_policy(decision) == Some("webpki-fallback"@) <==> decision is WebPkiFallback,
        tls_policy(decision) == Some("failed"@) <==> decision is Failed,
        tls_policy(decision) is None <==> decision is NoTlsa,
{
    reveal_strlit("dane");
    reveal_strlit("webpki-fallback");
    reveal_strlit("failed");
    assert("dane"@.len() == 4 && "webpki-fallback"@.len() == 15 && "failed"@.len() == 6);
}

} // verus!
