//! Checking requests and writing them out.
use crate::bytes;
use crate::dns;
use crate::text;
use crate::transport::types;
use crate::transport::types::{
    Header, HeaderView, OriginRequest, RequestView, TlsView, TlsaMatching, TlsaSelector, TlsaUsage,
    TlsaView, TlsValidation, TransportError, TransportLimits, DomainTrustMode,
};
use std::collections::hash_map::DefaultHasher;
use std::hash::Hasher;
use vstd::bytes::*;
use vstd::prelude::*;
use vstd::std_specs::hash::*;
use vstd::string::*;
use vstd::utf8::*;

verus! {

/// The most bytes that a host name has.
pub const MAX_HOST_BYTES: usize = 253;

pub open spec fn is_token_char(c: char) -> bool {
    ||| text::is_ascii_alnum(c)
    ||| c == '!'
    ||| c == '#'
    ||| c == '$'
    ||| c == '%'
    ||| c == '&'
    ||| c == '\''
    ||| c == '*'
    ||| c == '+'
    ||| c == '-'
    ||| c == '.'
    ||| c == '^'
    ||| c == '_'
    ||| c == '`'
    ||| c == '|'
    ||| c == '~'
}

fn char_is_token(c: char) -> (r: bool)
    ensures
        r == is_token_char(c),
{
    text::char_is_alnum(c) || c == '!' || c == '#' || c == '$' || c == '%' || c == '&' || c == '\''
        || c == '*' || c == '+' || c == '-' || c == '.' || c == '^' || c == '_' || c == '`' || c
        == '|' || c == '~'
}

/// A token: one or more of the characters that names in HTTP are made of.
pub open spec fn is_token(s: Seq<char>) -> bool {
    s.len() > 0 && forall|i: int| 0 <= i < s.len() ==> is_token_char(#[trigger] s[i])
}

pub fn is_http_token(value: &str) -> (r: bool)
    ensures
        r == is_token(value@),
{
    let cs = text::chars_of(value);
    let mut i: usize = 0;
    while i < cs.len()
        invariant
            i <= cs.len(),
            cs@ == value@,
            forall|j: int| 0 <= j < i ==> is_token_char(#[trigger] cs@[j]),
        decreases cs.len() - i,
    {
        if !char_is_token(cs[i]) {
            return false;
        }
        i = i + 1;
    }
    cs.len() > 0
}

pub open spec fn is_ascii_control(c: char) -> bool {
    c <= '\u{1f}' || c == '\u{7f}'
}

pub open spec fn is_host_char(c: char) -> bool {
    !is_ascii_control(c) && c != '/' && c != '?' && c != '#' && c != '@' && c != ' '
}

/// A host that a request can name.
pub open spec fn valid_host(host: Seq<char>) -> bool {
    &&& host.len() > 0
    &&& encode_utf8(host).len() <= MAX_HOST_BYTES
    &&& forall|i: int| 0 <= i < host.len() ==> is_host_char(#[trigger] host[i])
}

pub fn is_valid_host(host: &str) -> (r: bool)
    ensures
        r == valid_host(host@),
{
    let cs = text::chars_of(host);
    let bytes = host.as_bytes_vec();
    if cs.len() == 0 || bytes.len() > MAX_HOST_BYTES {
        return false;
    }
    let mut i: usize = 0;
    while i < cs.len()
        invariant
            i <= cs.len(),
            cs@ == host@,
            forall|j: int| 0 <= j < i ==> is_host_char(#[trigger] cs@[j]),
        decreases cs.len() - i,
    {
        let c = cs[i];
        if c <= '\u{1f}' || c == '\u{7f}' || c == '/' || c == '?' || c == '#' || c == '@' || c
            == ' ' {
            return false;
        }
        i = i + 1;
    }
    true
}

/// A path, with its query, that a request can name.
pub open spec fn valid_path(path: Seq<char>) -> bool {
    &&& path.len() > 0
    &&& path[0] == '/'
    &&& forall|i: int|
        0 <= i < path.len() ==> !is_ascii_control(#[trigger] path[i]) && path[i] != ' '
}

fn is_valid_path(path: &str) -> (r: bool)
    ensures
        r == valid_path(path@),
{
    let cs = text::chars_of(path);
    if cs.len() == 0 || cs[0] != '/' {
        return false;
    }
    let mut i: usize = 0;
    while i < cs.len()
        invariant
            i <= cs.len(),
            cs@ == path@,
            forall|j: int| 0 <= j < i ==> !is_ascii_control(#[trigger] cs@[j]) && cs@[j] != ' ',
        decreases cs.len() - i,
    {
        let c = cs[i];
        if c <= '\u{1f}' || c == '\u{7f}' || c == ' ' {
            return false;
        }
        i = i + 1;
    }
    true
}

pub open spec fn has_line_break(s: Seq<char>) -> bool {
    exists|i: int| 0 <= i < s.len() && (#[trigger] s[i] == '\r' || s[i] == '\n')
}

fn breaks_line(value: &str) -> (r: bool)
    ensures
        r == has_line_break(value@),
{
    let cs = text::chars_of(value);
    let mut i: usize = 0;
    while i < cs.len()
        invariant
            i <= cs.len(),
            cs@ == value@,
            forall|j: int| 0 <= j < i ==> #[trigger] cs@[j] != '\r' && cs@[j] != '\n',
        decreases cs.len() - i,
    {
        if cs[i] == '\r' || cs[i] == '\n' {
            return true;
        }
        i = i + 1;
    }
    false
}

/// Whether a comma-separated value has a token, in any case.
pub open spec fn has_token(value: Seq<char>, token: Seq<char>) -> bool {
    exists|i: int|
        0 <= i < text::split(value, ',').len() && text::same_ignoring_case(
            text::trim(#[trigger] text::split(value, ',')[i]),
            token,
        )
}

pub fn has_header_token(value: &str, expected: &str) -> (r: bool)
    ensures
        r == has_token(value@, expected@),
{
    let cs = text::chars_of(value);
    let parts = text::split_chars(&cs, ',');
    let ghost all = text::split(value@, ',');
    let mut i: usize = 0;
    while i < parts.len()
        invariant
            i <= parts.len(),
            all == text::split(value@, ','),
            text::views(parts@) == all,
            forall|j: int|
                0 <= j < i ==> !text::same_ignoring_case(text::trim(#[trigger] all[j]), expected@),
        decreases parts.len() - i,
    {
        assert(text::views(parts@)[i as int] == parts@[i as int]@);
        let token = text::trimmed(&parts[i]);
        let token = text::text_of(&token);
        if text::eq_ignore_case(token.as_str(), expected) {
            return true;
        }
        i = i + 1;
    }
    assert(text::views(parts@).len() == parts@.len());
    false
}

pub open spec fn asks_upgrade(header: HeaderView) -> bool {
    text::same_ignoring_case(header.0, "upgrade"@) || (text::same_ignoring_case(
        header.0,
        "connection"@,
    ) && has_token(header.1, "upgrade"@))
}

/// Whether the headers ask for another protocol.
pub open spec fn upgrades(headers: Seq<HeaderView>) -> bool {
    exists|i: int| 0 <= i < headers.len() && asks_upgrade(#[trigger] headers[i])
}

pub fn is_protocol_upgrade(headers: &Vec<Header>) -> (r: bool)
    ensures
        r == upgrades(types::header_views(headers@)),
{
    let ghost all = types::header_views(headers@);
    let mut i: usize = 0;
    while i < headers.len()
        invariant
            i <= headers.len(),
            all == types::header_views(headers@),
            forall|j: int| 0 <= j < i ==> !asks_upgrade(#[trigger] all[j]),
        decreases headers.len() - i,
    {
        assert(all[i as int] == (headers@[i as int].0@, headers@[i as int].1@));
        let name = headers[i].0.as_str();
        let value = headers[i].1.as_str();
        if text::eq_ignore_case(name, "upgrade") || (text::eq_ignore_case(name, "connection")
            && has_header_token(value, "upgrade")) {
            return true;
        }
        i = i + 1;
    }
    assert(all.len() == headers@.len());
    false
}

/// A header that belongs to one connection and is not passed on.
pub open spec fn hop_by_hop(name: Seq<char>) -> bool {
    let low = text::lower(name);
    ||| low == "connection"@
    ||| low == "keep-alive"@
    ||| low == "proxy-authenticate"@
    ||| low == "proxy-authorization"@
    ||| low == "proxy-connection"@
    ||| low == "te"@
    ||| low == "trailer"@
    ||| low == "transfer-encoding"@
    ||| low == "upgrade"@
}

pub fn is_hop_by_hop_header(name: &str) -> (r: bool)
    ensures
        r == hop_by_hop(name@),
{
    let low = text::to_lower(name);
    let low = low.as_str();
    text::same_text(low, "connection") || text::same_text(low, "keep-alive") || text::same_text(
        low,
        "proxy-authenticate",
    ) || text::same_text(low, "proxy-authorization") || text::same_text(low, "proxy-connection")
        || text::same_text(low, "te") || text::same_text(low, "trailer") || text::same_text(
        low,
        "transfer-encoding",
    ) || text::same_text(low, "upgrade")
}

/// A header that a request may carry.
pub open spec fn valid_header(header: HeaderView) -> bool {
    is_token(header.0) && !has_line_break(header.1)
}

/// Why a request of either kind is refused.
pub open spec fn common_fault(request: RequestView, limits: TransportLimits) -> Option<
    TransportError,
> {
    if !is_token(request.method) || !valid_host(request.host) || request.port == 0 || !valid_path(
        request.path_and_query,
    ) || (request.connect_host is Some && !valid_host(request.connect_host->0)) {
        Some(TransportError::InvalidRequest)
    } else if request.body.len() > limits.max_request_body_bytes {
        Some(TransportError::RequestTooLarge)
    } else if exists|i: int|
        0 <= i < request.headers.len() && !valid_header(#[trigger] request.headers[i]) {
        Some(TransportError::InvalidRequest)
    } else {
        None
    }
}

pub open spec fn checked(fault: Option<TransportError>) -> Result<(), TransportError> {
    match fault {
        Some(error) => Err(error),
        None => Ok(()),
    }
}

pub fn validate_request_common(request: &OriginRequest, limits: TransportLimits) -> (r: Result<
    (),
    TransportError,
>)
    ensures
        r == checked(common_fault(request@, limits)),
{
    if !is_http_token(request.method.as_str()) || !is_valid_host(request.host.as_str())
        || request.port == 0 || !is_valid_path(request.path_and_query.as_str()) {
        return Err(TransportError::InvalidRequest);
    }
    if let Some(connect_host) = &request.connect_host {
        if !is_valid_host(connect_host.as_str()) {
            return Err(TransportError::InvalidRequest);
        }
    }
    if request.body.len() > limits.max_request_body_bytes {
        return Err(TransportError::RequestTooLarge);
    }
    let ghost all = request@.headers;
    let mut i: usize = 0;
    while i < request.headers.len()
        invariant
            i <= request.headers@.len(),
            all == types::header_views(request.headers@),
            all == request@.headers,
            forall|j: int| 0 <= j < i ==> valid_header(#[trigger] all[j]),
            common_fault(request@, limits) == (if exists|k: int|
                0 <= k < request@.headers.len() && !valid_header(#[trigger] request@.headers[k]) {
                Some(TransportError::InvalidRequest)
            } else {
                None
            }),
        decreases request.headers@.len() - i,
    {
        assert(all[i as int] == (request.headers@[i as int].0@, request.headers@[i as int].1@));
        if !is_http_token(request.headers[i].0.as_str()) || breaks_line(
            request.headers[i].1.as_str(),
        ) {
            assert(!valid_header(request@.headers[i as int]));
            return Err(TransportError::InvalidRequest);
        }
        i = i + 1;
    }
    assert(all.len() == request.headers@.len());
    Ok(())
}

/// Why a request is refused: one for another protocol is.
pub open spec fn request_fault(request: RequestView, limits: TransportLimits) -> Option<
    TransportError,
> {
    match common_fault(request, limits) {
        Some(error) => Some(error),
        None => if upgrades(request.headers) {
            Some(TransportError::UnsupportedUpgrade)
        } else {
            None
        },
    }
}

pub fn validate_request(request: &OriginRequest, limits: TransportLimits) -> (r: Result<
    (),
    TransportError,
>)
    ensures
        r == checked(request_fault(request@, limits)),
{
    match validate_request_common(request, limits) {
        Ok(_) => if is_protocol_upgrade(&request.headers) {
            Err(TransportError::UnsupportedUpgrade)
        } else {
            Ok(())
        },
        Err(error) => Err(error),
    }
}

/// Why a request for a tunnel is refused: it must ask for another protocol,
/// and carry no body.
pub open spec fn tunnel_fault(request: RequestView, limits: TransportLimits) -> Option<
    TransportError,
> {
    match common_fault(request, limits) {
        Some(error) => Some(error),
        None => if !upgrades(request.headers) {
            Some(TransportError::UnsupportedUpgrade)
        } else if request.body.len() > 0 {
            Some(TransportError::InvalidRequest)
        } else {
            None
        },
    }
}

pub fn validate_tunnel_request(request: &OriginRequest, limits: TransportLimits) -> (r: Result<
    (),
    TransportError,
>)
    ensures
        r == checked(tunnel_fault(request@, limits)),
{
    match validate_request_common(request, limits) {
        Ok(_) => if !is_protocol_upgrade(&request.headers) {
            Err(TransportError::UnsupportedUpgrade)
        } else if request.body.len() > 0 {
            Err(TransportError::InvalidRequest)
        } else {
            Ok(())
        },
        Err(error) => Err(error),
    }
}

/// The scheme under a tunnel's scheme.
pub open spec fn tunnel_scheme(scheme: Seq<char>) -> Option<Seq<char>> {
    let low = text::lower(scheme);
    if low == "http"@ || low == "ws"@ {
        Some("http"@)
    } else if low == "https"@ || low == "wss"@ {
        Some("https"@)
    } else {
        None
    }
}

pub fn tunnel_origin_scheme(scheme: &str) -> (r: Result<String, TransportError>)
    ensures
        match r {
            Ok(under) => tunnel_scheme(scheme@) == Some(under@),
            Err(error) => tunnel_scheme(scheme@) is None && error
                == TransportError::UnsupportedScheme,
        },
{
    let low = text::to_lower(scheme);
    let low = low.as_str();
    if text::same_text(low, "http") || text::same_text(low, "ws") {
        Ok("http".to_owned())
    } else if text::same_text(low, "https") || text::same_text(low, "wss") {
        Ok("https".to_owned())
    } else {
        Err(TransportError::UnsupportedScheme)
    }
}

/// A host in brackets where it is an IPv6 address without them.
pub open spec fn bracketed(host: Seq<char>) -> Seq<char> {
    if host.contains(':') && host[0] != '[' {
        "["@ + host + "]"@
    } else {
        host
    }
}

/// The value of the `Host` header.
pub open spec fn host_field(host: Seq<char>, port: u16, scheme: Seq<char>) -> Seq<char> {
    let default_port: u16 = if text::lower(scheme) == "https"@ {
        443
    } else {
        80
    };
    if port == default_port {
        bracketed(host)
    } else {
        bracketed(host) + ":"@ + text::decimal(port as nat)
    }
}

pub fn host_header(host: &str, port: u16, scheme: &str) -> (r: String)
    ensures
        r@ == host_field(host@, port, scheme@),
{
    let cs = text::chars_of(host);
    let at: usize = text::find_char(&cs, ':');
    proof {
        text::lemma_find(host@, ':');
        if host@.contains(':') {
            let i = choose|i: int| 0 <= i < host@.len() && host@[i] == ':';
            assert(host@[i] == ':');
        }
    }
    let mut out = if at < cs.len() && cs[0] != '[' {
        let mut out = "[".to_owned();
        out.append(host);
        out.append("]");
        out
    } else {
        host.to_owned()
    };
    let low = text::to_lower(scheme);
    let default_port: u16 = if text::same_text(low.as_str(), "https") {
        443
    } else {
        80
    };
    if port != default_port {
        out.append(":");
        text::push_decimal(&mut out, port as u64);
    }
    out
}

/// The first lines of a request.
pub open spec fn request_head(request: RequestView) -> Seq<char> {
    text::upper(request.method) + " "@ + request.path_and_query + " HTTP/1.1\r\nHost: "@
        + host_field(request.host, request.port, request.scheme)
        + "\r\nUser-Agent: hns-browser/0.2.4\r\nAccept: */*\r\n"@
}

fn write_request_head(request: &OriginRequest) -> (r: String)
    ensures
        r@ == request_head(request@),
{
    let mut out = text::to_upper(request.method.as_str());
    out.append(" ");
    out.append(request.path_and_query.as_str());
    out.append(" HTTP/1.1\r\nHost: ");
    let host = host_header(request.host.as_str(), request.port, request.scheme.as_str());
    out.append(host.as_str());
    out.append("\r\nUser-Agent: hns-browser/0.2.4\r\nAccept: */*\r\n");
    out
}

/// A header that is passed on to the origin.
pub open spec fn passed_on(name: Seq<char>) -> bool {
    !hop_by_hop(name) && !text::same_ignoring_case(name, "host"@) && !text::same_ignoring_case(
        name,
        "content-length"@,
    )
}

pub fn is_passed_on(name: &str) -> (r: bool)
    ensures
        r == passed_on(name@),
{
    !is_hop_by_hop_header(name) && !text::eq_ignore_case(name, "host") && !text::eq_ignore_case(
        name,
        "content-length",
    )
}

/// A header that is passed on with a request to switch protocols.
pub open spec fn passed_on_upgrade(name: Seq<char>) -> bool {
    !text::same_ignoring_case(name, "host"@) && !text::same_ignoring_case(name, "content-length"@)
        && !text::same_ignoring_case(name, "proxy-connection"@)
}

/// A text followed by one header line.
pub open spec fn with_header(out: Seq<char>, header: HeaderView) -> Seq<char> {
    out + header.0 + ": "@ + header.1 + "\r\n"@
}

fn write_header(out: &mut String, name: &str, value: &str)
    ensures
        final(out)@ == with_header(old(out)@, (name@, value@)),
{
    out.append(name);
    out.append(": ");
    out.append(value);
    out.append("\r\n");
}

/// A text followed by the lines of the first `n` headers that are passed on.
pub open spec fn with_headers(
    out: Seq<char>,
    headers: Seq<HeaderView>,
    n: nat,
    upgrade: bool,
) -> Seq<char>
    decreases n,
{
    if n == 0 {
        out
    } else {
        let before = with_headers(out, headers, (n - 1) as nat, upgrade);
        let header = headers[n - 1];
        let kept = if upgrade {
            passed_on_upgrade(header.0)
        } else {
            passed_on(header.0)
        };
        if kept {
            with_header(before, header)
        } else {
            before
        }
    }
}

/// The text of a request before its body.
pub open spec fn request_text(request: RequestView, keep_alive: bool) -> Seq<char> {
    let headers = with_headers(
        request_head(request),
        request.headers,
        request.headers.len(),
        false,
    );
    let counted = if request.body.len() == 0 {
        headers
    } else {
        headers + "Content-Length: "@ + text::decimal(request.body.len()) + "\r\n"@
    };
    counted + "Connection: "@ + (if keep_alive {
        "keep-alive"@
    } else {
        "close"@
    }) + "\r\n\r\n"@
}

/// The bytes of an HTTP/1.1 request. Its length comes from its body alone.
pub fn build_http_request(request: &OriginRequest, keep_alive: bool) -> (r: Vec<u8>)
    ensures
        r@ == encode_utf8(request_text(request@, keep_alive)) + request.body@,
{
    let mut out = write_request_head(request);
    let ghost start = request_head(request@);
    let ghost all = request@.headers;
    let mut i: usize = 0;
    while i < request.headers.len()
        invariant
            i <= request.headers@.len(),
            all == types::header_views(request.headers@),
            out@ == with_headers(start, all, i as nat, false),
        decreases request.headers@.len() - i,
    {
        assert(all[i as int] == (request.headers@[i as int].0@, request.headers@[i as int].1@));
        let name = request.headers[i].0.as_str();
        if is_passed_on(name) {
            write_header(&mut out, name, request.headers[i].1.as_str());
        }
        i = i + 1;
    }
    assert(all.len() == request.headers@.len());
    if request.body.len() > 0 {
        out.append("Content-Length: ");
        text::push_decimal(&mut out, request.body.len() as u64);
        out.append("\r\n");
    }
    out.append("Connection: ");
    if keep_alive {
        out.append("keep-alive");
    } else {
        out.append("close");
    }
    out.append("\r\n\r\n");
    let mut bytes = out.as_str().as_bytes_vec();
    let mut body = dns::copy_bytes(&request.body);
    bytes.append(&mut body);
    bytes
}

/// Whether a header asks to switch the connection.
pub open spec fn switches(header: HeaderView) -> bool {
    passed_on_upgrade(header.0) && text::same_ignoring_case(header.0, "connection"@) && has_token(
        header.1,
        "upgrade"@,
    )
}

/// Whether a header names the protocol to switch to.
pub open spec fn names_protocol(header: HeaderView) -> bool {
    passed_on_upgrade(header.0) && text::same_ignoring_case(header.0, "upgrade"@)
}

/// The text of a request to switch protocols: what the headers leave unsaid is
/// added.
pub open spec fn upgrade_text(request: RequestView) -> Seq<char> {
    let headers = with_headers(
        request_head(request),
        request.headers,
        request.headers.len(),
        true,
    );
    let connected = if exists|i: int|
        0 <= i < request.headers.len() && switches(#[trigger] request.headers[i]) {
        headers
    } else {
        headers + "Connection: Upgrade\r\n"@
    };
    let named = if exists|i: int|
        0 <= i < request.headers.len() && names_protocol(#[trigger] request.headers[i]) {
        connected
    } else {
        connected + "Upgrade: websocket\r\n"@
    };
    named + "\r\n"@
}

/// The bytes of a request to switch protocols.
pub fn build_http_upgrade_request(request: &OriginRequest) -> (r: Vec<u8>)
    ensures
        r@ == encode_utf8(upgrade_text(request@)),
{
    let mut out = write_request_head(request);
    let ghost start = request_head(request@);
    let ghost all = request@.headers;
    let mut has_connection_upgrade = false;
    let mut has_upgrade = false;
    let mut i: usize = 0;
    while i < request.headers.len()
        invariant
            i <= request.headers@.len(),
            all == types::header_views(request.headers@),
            out@ == with_headers(start, all, i as nat, true),
            has_connection_upgrade == (exists|j: int| 0 <= j < i && switches(#[trigger] all[j])),
            has_upgrade == (exists|j: int| 0 <= j < i && names_protocol(#[trigger] all[j])),
        decreases request.headers@.len() - i,
    {
        assert(all[i as int] == (request.headers@[i as int].0@, request.headers@[i as int].1@));
        let name = request.headers[i].0.as_str();
        let value = request.headers[i].1.as_str();
        if !(text::eq_ignore_case(name, "host") || text::eq_ignore_case(name, "content-length")
            || text::eq_ignore_case(name, "proxy-connection")) {
            if text::eq_ignore_case(name, "connection") && has_header_token(value, "upgrade") {
                has_connection_upgrade = true;
                assert(switches(all[i as int]));
            }
            if text::eq_ignore_case(name, "upgrade") {
                has_upgrade = true;
                assert(names_protocol(all[i as int]));
            }
            write_header(&mut out, name, value);
        }
        i = i + 1;
    }
    assert(all.len() == request.headers@.len());
    if !has_connection_upgrade {
        out.append("Connection: Upgrade\r\n");
    }
    if !has_upgrade {
        out.append("Upgrade: websocket\r\n");
    }
    out.append("\r\n");
    out.as_str().as_bytes_vec()
}

/// Whether `http::Uri` reads a text as a URI.
pub uninterp spec fn uri_parses(text: Seq<char>) -> bool;

/// `str::parse::<http::Uri>`: whether the text is a URI. What counts as one is
/// left to the crate.
#[verifier::external_body]
fn is_uri(text: &str) -> (r: bool)
    ensures
        r == uri_parses(text@),
{
    text.parse::<http::Uri>().is_ok()
}

/// `http::Method::from_bytes`: a method is a token.
#[verifier::external_body]
fn is_http_method(method: &str) -> (r: bool)
    ensures
        r == is_token(method@),
{
    http::Method::from_bytes(method.as_bytes()).is_ok()
}

/// The most bytes that a header name of the `http` crate has.
pub const MAX_FIELD_NAME_BYTES: usize = 65_535;

/// `http::HeaderName::from_bytes`: a header name is a token of bounded length,
/// and comes in lower case.
#[verifier::external_body]
fn http_field_name(name: &str) -> (r: Option<String>)
    ensures
        match r {
            Some(low) => is_token(name@) && name@.len() <= MAX_FIELD_NAME_BYTES && low@
                == text::lower(name@),
            None => !is_token(name@) || name@.len() > MAX_FIELD_NAME_BYTES,
        },
{
    http::HeaderName::from_bytes(name.as_bytes()).ok().map(|name| name.as_str().to_owned())
}

/// A character of a header value: no control character but the tab.
pub open spec fn is_field_char(c: char) -> bool {
    (c >= ' ' && c != '\u{7f}') || c == '\t'
}

pub open spec fn is_field_value(value: Seq<char>) -> bool {
    forall|i: int| 0 <= i < value.len() ==> is_field_char(#[trigger] value[i])
}

/// `http::HeaderValue::from_str`: a header value has no control character but
/// the tab.
#[verifier::external_body]
fn is_http_field_value(value: &str) -> (r: bool)
    ensures
        r == is_field_value(value@),
{
    http::HeaderValue::from_str(value).is_ok()
}

/// A request as HTTP/2 and HTTP/3 carry it, without its body.
#[derive(Clone, Debug, PartialEq, Eq)]
pub struct Http2Head {
    pub method: String,
    pub uri: String,
    pub headers: Vec<Header>,
}

/// The first `n` headers that are passed on, as fields; none if one of them
/// cannot be a field.
pub open spec fn http2_fields(headers: Seq<HeaderView>, n: nat) -> Option<Seq<HeaderView>>
    decreases n,
{
    if n == 0 {
        Some(
            seq![
                ("user-agent"@, "hns-browser/0.2.4"@),
                ("accept"@, "*/*"@),
            ],
        )
    } else {
        let header = headers[n - 1];
        match http2_fields(headers, (n - 1) as nat) {
            None => None,
            Some(fields) => if !passed_on(header.0) {
                Some(fields)
            } else if is_token(header.0) && header.0.len() <= MAX_FIELD_NAME_BYTES
                && is_field_value(header.1) {
                Some(fields.push((text::lower(header.0), header.1)))
            } else {
                None
            },
        }
    }
}

pub open spec fn http2_uri(request: RequestView) -> Seq<char> {
    request.scheme + "://"@ + host_field(request.host, request.port, request.scheme)
        + request.path_and_query
}

proof fn lemma_fields_stay_refused(headers: Seq<HeaderView>, n: nat, m: nat)
    requires
        n <= m,
        http2_fields(headers, n) is None,
    ensures
        http2_fields(headers, m) is None,
    decreases m,
{
    if n < m {
        lemma_fields_stay_refused(headers, n, (m - 1) as nat);
    }
}

/// The head of a request for HTTP/2 or HTTP/3, given whether its address is a
/// URI.
pub fn http2_head(request: &OriginRequest, uri: String, is_uri: bool) -> (r: Result<
    Http2Head,
    TransportError,
>)
    ensures
        match r {
            Ok(head) => {
                &&& is_uri
                &&& is_token(request.method@)
                &&& head.method@ == request.method@
                &&& head.uri@ == uri@
                &&& http2_fields(request@.headers, request@.headers.len()) == Some(
                    types::header_views(head.headers@),
                )
            },
            Err(error) => {
                &&& error == TransportError::InvalidRequest
                &&& !is_uri || !is_token(request.method@) || http2_fields(
                    request@.headers,
                    request@.headers.len(),
                ) is None
            },
        },
{
    if !is_uri || !is_http_method(request.method.as_str()) {
        return Err(TransportError::InvalidRequest);
    }
    let mut headers: Vec<Header> = Vec::new();
    headers.push(("user-agent".to_owned(), "hns-browser/0.2.4".to_owned()));
    headers.push(("accept".to_owned(), "*/*".to_owned()));
    let ghost all = request@.headers;
    assert(types::header_views(headers@) =~= seq![
        ("user-agent"@, "hns-browser/0.2.4"@),
        ("accept"@, "*/*"@),
    ]);
    let mut i: usize = 0;
    while i < request.headers.len()
        invariant
            i <= request.headers@.len(),
            all == types::header_views(request.headers@),
            all == request@.headers,
            http2_fields(all, i as nat) == Some(types::header_views(headers@)),
        decreases request.headers@.len() - i,
    {
        assert(all[i as int] == (request.headers@[i as int].0@, request.headers@[i as int].1@));
        assert(all.len() == request.headers@.len());
        let name = request.headers[i].0.as_str();
        let value = request.headers[i].1.as_str();
        if is_passed_on(name) {
            let valid = is_http_field_value(value);
            match http_field_name(name) {
                Some(low) if valid => {
                    let ghost before = types::header_views(headers@);
                    let ghost field = (low@, value@);
                    headers.push((low, value.to_owned()));
                    assert(types::header_views(headers@) =~= before.push(field));
                },
                _ => {
                    proof {
                        lemma_fields_stay_refused(all, (i + 1) as nat, all.len());
                    }
                    return Err(TransportError::InvalidRequest);
                },
            }
        }
        i = i + 1;
    }
    assert(all.len() == request.headers@.len());
    Ok(Http2Head { method: request.method.clone(), uri, headers })
}

/// The head of a request for HTTP/2 or HTTP/3.
pub fn build_http2_request(request: &OriginRequest) -> (r: Result<Http2Head, TransportError>)
    ensures
        match r {
            Ok(head) => {
                &&& uri_parses(http2_uri(request@))
                &&& is_token(request.method@)
                &&& head.method@ == request.method@
                &&& head.uri@ == http2_uri(request@)
                &&& http2_fields(request@.headers, request@.headers.len()) == Some(
                    types::header_views(head.headers@),
                )
            },
            Err(error) => {
                &&& error == TransportError::InvalidRequest
                &&& !uri_parses(http2_uri(request@)) || !is_token(request.method@) || http2_fields(
                    request@.headers,
                    request@.headers.len(),
                ) is None
            },
        },
{
    let mut uri = request.scheme.clone();
    uri.append("://");
    let authority = host_header(request.host.as_str(), request.port, request.scheme.as_str());
    uri.append(authority.as_str());
    uri.append(request.path_and_query.as_str());
    let parses = is_uri(uri.as_str());
    http2_head(request, uri, parses)
}

/// Whether `rustls` takes a text for the name of a server.
pub uninterp spec fn names_server(host: Seq<char>) -> bool;

/// `rustls::pki_types::ServerName::try_from`: whether the text names a server.
/// What counts as a name is left to the crate.
#[verifier::external_body]
fn is_server_name(host: &str) -> (r: bool)
    ensures
        r == names_server(host@),
{
    rustls::pki_types::ServerName::try_from(host).is_ok()
}

/// Checks that a certificate can be asked of the request's host.
pub fn check_server_name(request: &OriginRequest) -> (r: Result<(), TransportError>)
    ensures
        r == (if names_server(request.host@) {
            Ok(())
        } else {
            Err(TransportError::InvalidRequest)
        }),
{
    server_name_checked(is_server_name(request.host.as_str()))
}

/// What follows from whether the host names a server.
pub fn server_name_checked(named: bool) -> (r: Result<(), TransportError>)
    ensures
        r == (if named {
            Ok(())
        } else {
            Err(TransportError::InvalidRequest)
        }),
{
    if named {
        Ok(())
    } else {
        Err(TransportError::InvalidRequest)
    }
}

pub open spec fn mode_text(mode: DomainTrustMode) -> Seq<char> {
    match mode {
        DomainTrustMode::HnsStrict => "HnsStrict"@,
        DomainTrustMode::HnsCompatibility => "HnsCompatibility"@,
        DomainTrustMode::IcannWebPki => "IcannWebPki"@,
    }
}

pub open spec fn usage_text(usage: TlsaUsage) -> Seq<char> {
    match usage {
        TlsaUsage::PkixTa => "PkixTa"@,
        TlsaUsage::PkixEe => "PkixEe"@,
        TlsaUsage::DaneTa => "DaneTa"@,
        TlsaUsage::DaneEe => "DaneEe"@,
    }
}

pub open spec fn selector_text(selector: TlsaSelector) -> Seq<char> {
    match selector {
        TlsaSelector::FullCertificate => "FullCertificate"@,
        TlsaSelector::SubjectPublicKeyInfo => "SubjectPublicKeyInfo"@,
    }
}

pub open spec fn matching_text(matching: TlsaMatching) -> Seq<char> {
    match matching {
        TlsaMatching::Exact => "Exact"@,
        TlsaMatching::Sha256 => "Sha256"@,
        TlsaMatching::Sha512 => "Sha512"@,
    }
}

/// A length as it goes before hashed bytes: as wide as the machine's words, the
/// lowest byte first.
pub open spec fn length_prefix(length: usize) -> Seq<u8> {
    if usize::BITS == 64 {
        spec_u64_to_le_bytes(length as u64)
    } else {
        spec_u32_to_le_bytes(length as u32)
    }
}

/// The hash of a certificate association's data: of its length and its bytes, by
/// the default hasher.
pub open spec fn association_hash(data: Seq<u8>) -> u64 {
    DefaultHasher::spec_finish(seq![length_prefix(data.len() as usize), data])
}

fn hash_association(data: &Vec<u8>) -> (r: u64)
    ensures
        r == association_hash(data@),
{
    let mut hasher = DefaultHasher::new();
    let length = if usize::BITS == 64 {
        u64_to_le_bytes(data.len() as u64)
    } else {
        u32_to_le_bytes(data.len() as u32)
    };
    hasher.write(length.as_slice());
    hasher.write(data.as_slice());
    assert(hasher@ =~= seq![length_prefix(data@.len() as usize), data@]);
    hasher.finish()
}

/// A key followed by the first `n` certificate associations.
pub open spec fn with_associations(out: Seq<char>, records: Seq<TlsaView>, n: nat) -> Seq<char>
    decreases n,
{
    if n == 0 {
        out
    } else {
        let record = records[n - 1];
        with_associations(out, records, (n - 1) as nat) + ";"@ + usage_text(record.usage) + ":"@
            + selector_text(record.selector) + ":"@ + matching_text(record.matching) + ":"@
            + text::hex_number(association_hash(record.association_data) as nat, 16)
    }
}

/// The key under which connections with the same validation are kept.
pub open spec fn tls_key(tls: TlsView) -> Seq<char> {
    with_associations(
        "mode="@ + mode_text(tls.mode) + ";secure="@ + (if tls.dnssec_secure {
            "true"@
        } else {
            "false"@
        }) + ";records="@ + text::decimal(tls.tlsa_records.len()),
        tls.tlsa_records,
        tls.tlsa_records.len(),
    )
}

pub fn tls_validation_key(tls: &TlsValidation) -> (r: String)
    ensures
        r@ == tls_key(tls@),
{
    let mut out = "mode=".to_owned();
    out.append(
        match tls.mode {
            DomainTrustMode::HnsStrict => "HnsStrict",
            DomainTrustMode::HnsCompatibility => "HnsCompatibility",
            DomainTrustMode::IcannWebPki => "IcannWebPki",
        },
    );
    out.append(";secure=");
    if tls.dnssec_secure {
        out.append("true");
    } else {
        out.append("false");
    }
    out.append(";records=");
    text::push_decimal(&mut out, tls.tlsa_records.len() as u64);
    let ghost start = out@;
    let ghost all = tls@.tlsa_records;
    let mut i: usize = 0;
    while i < tls.tlsa_records.len()
        invariant
            i <= tls.tlsa_records@.len(),
            all == types::tlsa_views(tls.tlsa_records@),
            out@ == with_associations(start, all, i as nat),
        decreases tls.tlsa_records@.len() - i,
    {
        let record = &tls.tlsa_records[i];
        assert(all[i as int] == record@);
        out.append(";");
        out.append(
            match record.usage {
                TlsaUsage::PkixTa => "PkixTa",
                TlsaUsage::PkixEe => "PkixEe",
                TlsaUsage::DaneTa => "DaneTa",
                TlsaUsage::DaneEe => "DaneEe",
            },
        );
        out.append(":");
        out.append(
            match record.selector {
                TlsaSelector::FullCertificate => "FullCertificate",
                TlsaSelector::SubjectPublicKeyInfo => "SubjectPublicKeyInfo",
            },
        );
        out.append(":");
        out.append(
            match record.matching {
                TlsaMatching::Exact => "Exact",
                TlsaMatching::Sha256 => "Sha256",
                TlsaMatching::Sha512 => "Sha512",
            },
        );
        out.append(":");
        let hash: u64 = hash_association(&record.association_data);
        text::push_hex_number(&mut out, hash, 16);
        i = i + 1;
    }
    out
}

/// The host that a connection goes to: the origin's, unless another is given.
pub open spec fn host_to_connect(request: RequestView) -> Seq<char> {
    match request.connect_host {
        Some(host) => host,
        None => request.host,
    }
}

pub fn connection_host(request: &OriginRequest) -> (r: &str)
    ensures
        r@ == host_to_connect(request@),
{
    match &request.connect_host {
        Some(host) => host.as_str(),
        None => request.host.as_str(),
    }
}

/// The first `n` protocols by name, with commas between them.
pub open spec fn named_protocols(protocols: Seq<Seq<u8>>, n: nat) -> Seq<char>
    decreases n,
{
    if n == 0 {
        Seq::empty()
    } else if n == 1 {
        bytes::lossy_text(protocols[0])
    } else {
        named_protocols(protocols, (n - 1) as nat) + ","@ + bytes::lossy_text(protocols[n - 1])
    }
}

pub open spec fn protocol_views(protocols: Seq<Vec<u8>>) -> Seq<Seq<u8>> {
    Seq::new(protocols.len(), |i: int| protocols[i]@)
}

/// The protocols that a handshake offers, as part of a key.
pub fn alpn_key(alpn_protocols: &Vec<Vec<u8>>) -> (r: String)
    ensures
        r@ == named_protocols(protocol_views(alpn_protocols@), alpn_protocols@.len()),
{
    let ghost all = protocol_views(alpn_protocols@);
    let mut out = String::new();
    let mut i: usize = 0;
    assert(out@ =~= Seq::empty());
    while i < alpn_protocols.len()
        invariant
            i <= alpn_protocols@.len(),
            all == protocol_views(alpn_protocols@),
            out@ == named_protocols(all, i as nat),
        decreases alpn_protocols@.len() - i,
    {
        assert(all[i as int] == alpn_protocols@[i as int]@);
        let named = bytes::text_from_bytes(alpn_protocols[i].as_slice());
        if i > 0 {
            out.append(",");
        }
        let ghost before = out@;
        out.append(named.as_str());
        assert(i == 0 ==> out@ =~= bytes::lossy_text(all[0]));
        i = i + 1;
    }
    out
}

/// The key under which sessions are kept for resumption: they are shared only
/// where the validation and the protocols on offer are the same.
pub fn resumption_key(tls: &TlsValidation, alpn_protocols: &Vec<Vec<u8>>) -> (r: String)
    ensures
        r@ == tls_key(tls@) + "|alpn="@ + named_protocols(
            protocol_views(alpn_protocols@),
            alpn_protocols@.len(),
        ),
{
    let offered = alpn_key(alpn_protocols);
    let mut out = tls_validation_key(tls);
    out.append("|alpn=");
    out.append(offered.as_str());
    out
}

/// A request is fit for a response or for a tunnel, never for both.
pub proof fn law_requests_are_of_one_kind(request: RequestView, limits: TransportLimits)
    ensures
        request_fault(request, limits) is Some || tunnel_fault(request, limits) is Some,
{
}

proof fn lemma_headers_without(out: Seq<char>, headers: Seq<HeaderView>, i: int, n: nat)
    requires
        0 <= i < headers.len(),
        n <= headers.len(),
        !passed_on(headers[i].0),
    ensures
        n <= i ==> with_headers(out, headers, n, false) == with_headers(
            out,
            headers.remove(i),
            n,
            false,
        ),
        n > i ==> with_headers(out, headers, n, false) == with_headers(
            out,
            headers.remove(i),
            (n - 1) as nat,
            false,
        ),
    decreases n,
{
    if n > 0 {
        lemma_headers_without(out, headers, i, (n - 1) as nat);
        if n <= i {
            assert(headers.remove(i)[n - 1] == headers[n - 1]);
        } else if n - 1 > i {
            assert(headers.remove(i)[n - 2] == headers[n - 1]);
        }
    }
}

/// What a request says of its connection, its host or its length goes no
/// further: the text that is sent is the same without it.
pub proof fn law_own_framing_is_not_sent(request: RequestView, i: int, keep_alive: bool)
    requires
        0 <= i < request.headers.len(),
        hop_by_hop(request.headers[i].0) || text::same_ignoring_case(
            request.headers[i].0,
            "host"@,
        ) || text::same_ignoring_case(request.headers[i].0, "content-length"@),
    ensures
        request_text(request, keep_alive) == request_text(
            (RequestView { headers: request.headers.remove(i), ..request }),
            keep_alive,
        ),
{
    lemma_headers_without(request_head(request), request.headers, i, request.headers.len());
    let without = RequestView { headers: request.headers.remove(i), ..request };
    assert(request_head(without) == request_head(request));
}

/// Whether a name, letters taken in either case, is one that a request keeps to
/// its own connection, or one that the gateway writes itself.
pub open spec fn is_kept_back(name: Seq<char>) -> bool {
    let low = text::lower(name);
    ||| low == "connection"@
    ||| low == "keep-alive"@
    ||| low == "proxy-authenticate"@
    ||| low == "proxy-authorization"@
    ||| low == "proxy-connection"@
    ||| low == "te"@
    ||| low == "trailer"@
    ||| low == "transfer-encoding"@
    ||| low == "upgrade"@
    ||| low == "host"@
    ||| low == "content-length"@
}

proof fn lemma_lower_names()
    ensures
        text::lower("host"@) == "host"@,
        text::lower("content-length"@) == "content-length"@,
        text::lower("proxy-connection"@) == "proxy-connection"@,
        text::lower("connection"@) == "connection"@,
        text::lower("upgrade"@) == "upgrade"@,
{
    reveal_strlit("host");
    reveal_strlit("content-length");
    reveal_strlit("proxy-connection");
    reveal_strlit("connection");
    reveal_strlit("upgrade");
    assert(text::lower("host"@) =~= "host"@);
    assert(text::lower("content-length"@) =~= "content-length"@);
    assert(text::lower("proxy-connection"@) =~= "proxy-connection"@);
    assert(text::lower("connection"@) =~= "connection"@);
    assert(text::lower("upgrade"@) =~= "upgrade"@);
}

/// A header is passed on unless its name is one of the nine that belong to a
/// connection, or `host`, or `content-length`.
pub proof fn law_what_is_passed_on(name: Seq<char>)
    ensures
        passed_on(name) <==> !is_kept_back(name),
        passed_on_upgrade(name) <==> {
            let low = text::lower(name);
            low != "host"@ && low != "content-length"@ && low != "proxy-connection"@
        },
{
    lemma_lower_names();
}

/// The line of a header.
pub open spec fn header_line(header: HeaderView) -> Seq<char> {
    header.0 + ": "@ + header.1 + "\r\n"@
}

proof fn lemma_headers_extend(
    out: Seq<char>,
    headers: Seq<HeaderView>,
    n: nat,
    m: nat,
    upgrade: bool,
)
    requires
        n <= m <= headers.len(),
    ensures
        with_headers(out, headers, n, upgrade).len() <= with_headers(out, headers, m, upgrade).len(),
        with_headers(out, headers, m, upgrade).take(
            with_headers(out, headers, n, upgrade).len() as int,
        ) == with_headers(out, headers, n, upgrade),
    decreases m,
{
    let whole = with_headers(out, headers, m, upgrade);
    let part = with_headers(out, headers, n, upgrade);
    if n < m {
        lemma_headers_extend(out, headers, n, (m - 1) as nat, upgrade);
        let before = with_headers(out, headers, (m - 1) as nat, upgrade);
        assert(whole.take(before.len() as int) =~= before);
        assert(whole.take(part.len() as int) =~= before.take(part.len() as int));
    } else {
        assert(whole.take(whole.len() as int) =~= whole);
    }
}

proof fn lemma_header_stands(
    out: Seq<char>,
    headers: Seq<HeaderView>,
    i: int,
    n: nat,
    upgrade: bool,
)
    requires
        0 <= i < n <= headers.len(),
        if upgrade {
            passed_on_upgrade(headers[i].0)
        } else {
            passed_on(headers[i].0)
        },
    ensures
        ({
            let whole = with_headers(out, headers, n, upgrade);
            let at = with_headers(out, headers, i as nat, upgrade).len() as int;
            let line = header_line(headers[i]);
            &&& at + line.len() == with_headers(out, headers, (i + 1) as nat, upgrade).len()
            &&& at + line.len() <= whole.len()
            &&& whole.subrange(at, at + line.len()) == line
        }),
{
    let whole = with_headers(out, headers, n, upgrade);
    let before = with_headers(out, headers, i as nat, upgrade);
    let after = with_headers(out, headers, (i + 1) as nat, upgrade);
    let line = header_line(headers[i]);
    assert(after =~= before + line);
    lemma_headers_extend(out, headers, (i + 1) as nat, n, upgrade);
    assert(whole.subrange(before.len() as int, after.len() as int) =~= whole.take(
        after.len() as int,
    ).skip(before.len() as int));
    assert(after.skip(before.len() as int) =~= line);
}

/// Every header that is not kept back stands in the text that is sent, as its
/// name, a colon, a space, its value and a line break, and headers stand in the
/// order in which they came. The result says where the two lines begin.
pub proof fn law_headers_are_sent(request: RequestView, i: int, j: int, keep_alive: bool) -> (at: (
    int,
    int,
))
    requires
        0 <= i <= j < request.headers.len(),
        !is_kept_back(request.headers[i].0),
        !is_kept_back(request.headers[j].0),
    ensures
        ({
            let sent = request_text(request, keep_alive);
            let first = request.headers[i].0 + ": "@ + request.headers[i].1 + "\r\n"@;
            let second = request.headers[j].0 + ": "@ + request.headers[j].1 + "\r\n"@;
            &&& 0 <= at.0 && at.0 + first.len() <= sent.len()
            &&& 0 <= at.1 && at.1 + second.len() <= sent.len()
            &&& sent.subrange(at.0, at.0 + first.len()) == first
            &&& sent.subrange(at.1, at.1 + second.len()) == second
            &&& i < j ==> at.0 + first.len() <= at.1
        }),
{
    let n = request.headers.len();
    let head = request_head(request);
    law_what_is_passed_on(request.headers[i].0);
    law_what_is_passed_on(request.headers[j].0);
    lemma_header_stands(head, request.headers, i, n, false);
    lemma_header_stands(head, request.headers, j, n, false);
    if i < j {
        lemma_headers_extend(head, request.headers, (i + 1) as nat, j as nat, false);
    }
    let lines = with_headers(head, request.headers, n, false);
    let sent = request_text(request, keep_alive);
    assert(sent.take(lines.len() as int) =~= lines);
    let p = with_headers(head, request.headers, i as nat, false).len() as int;
    let q = with_headers(head, request.headers, j as nat, false).len() as int;
    let first = header_line(request.headers[i]);
    let second = header_line(request.headers[j]);
    assert(sent.subrange(p, p + first.len()) =~= lines.subrange(p, p + first.len()));
    assert(sent.subrange(q, q + second.len()) =~= lines.subrange(q, q + second.len()));
    (p, q)
}

/// A request to switch protocols carries every header but `host`,
/// `content-length` and `proxy-connection`, in order.
pub proof fn law_upgrade_headers_are_sent(request: RequestView, i: int, j: int) -> (at: (int, int))
    requires
        0 <= i <= j < request.headers.len(),
        text::lower(request.headers[i].0) != "host"@,
        text::lower(request.headers[i].0) != "content-length"@,
        text::lower(request.headers[i].0) != "proxy-connection"@,
        text::lower(request.headers[j].0) != "host"@,
        text::lower(request.headers[j].0) != "content-length"@,
        text::lower(request.headers[j].0) != "proxy-connection"@,
    ensures
        ({
            let sent = upgrade_text(request);
            let first = request.headers[i].0 + ": "@ + request.headers[i].1 + "\r\n"@;
            let second = request.headers[j].0 + ": "@ + request.headers[j].1 + "\r\n"@;
            &&& 0 <= at.0 && at.0 + first.len() <= sent.len()
            &&& 0 <= at.1 && at.1 + second.len() <= sent.len()
            &&& sent.subrange(at.0, at.0 + first.len()) == first
            &&& sent.subrange(at.1, at.1 + second.len()) == second
            &&& i < j ==> at.0 + first.len() <= at.1
        }),
{
    let n = request.headers.len();
    let head = request_head(request);
    law_what_is_passed_on(request.headers[i].0);
    law_what_is_passed_on(request.headers[j].0);
    lemma_header_stands(head, request.headers, i, n, true);
    lemma_header_stands(head, request.headers, j, n, true);
    if i < j {
        lemma_headers_extend(head, request.headers, (i + 1) as nat, j as nat, true);
    }
    let lines = with_headers(head, request.headers, n, true);
    let sent = upgrade_text(request);
    assert(sent.take(lines.len() as int) =~= lines);
    let p = with_headers(head, request.headers, i as nat, true).len() as int;
    let q = with_headers(head, request.headers, j as nat, true).len() as int;
    let first = header_line(request.headers[i]);
    let second = header_line(request.headers[j]);
    assert(sent.subrange(p, p + first.len()) =~= lines.subrange(p, p + first.len()));
    assert(sent.subrange(q, q + second.len()) =~= lines.subrange(q, q + second.len()));
    (p, q)
}

proof fn lemma_fields_hold(headers: Seq<HeaderView>, n: nat, field: HeaderView)
    requires
        n <= headers.len(),
        http2_fields(headers, n) is Some,
    ensures
        http2_fields(headers, n)->0.contains(field) <==> field == ("user-agent"@, "hns-browser/0.2.4"@)
            || field == ("accept"@, "*/*"@) || exists|i: int|
            0 <= i < n && !is_kept_back((#[trigger] headers[i]).0) && field == (
                text::lower(headers[i].0),
                headers[i].1,
            ),
    decreases n,
{
    let fields = http2_fields(headers, n)->0;
    if n == 0 {
        let start = seq![("user-agent"@, "hns-browser/0.2.4"@), ("accept"@, "*/*"@)];
        assert(fields =~= start);
        if fields.contains(field) {
            let k = choose|k: int| 0 <= k < fields.len() && fields[k] == field;
        }
        assert(fields[0] == ("user-agent"@, "hns-browser/0.2.4"@));
        assert(fields[1] == ("accept"@, "*/*"@));
    } else {
        let m = (n - 1) as nat;
        let before = http2_fields(headers, m)->0;
        lemma_fields_hold(headers, m, field);
        law_what_is_passed_on(headers[n - 1].0);
        if before.contains(field) {
            let k = choose|k: int| 0 <= k < before.len() && before[k] == field;
            assert(fields[k] == field);
        }
        if fields.contains(field) && !before.contains(field) {
            let k = choose|k: int| 0 <= k < fields.len() && fields[k] == field;
            if k < before.len() {
                assert(before[k] == field);
            }
        }
        if exists|i: int|
            0 <= i < n && !is_kept_back((#[trigger] headers[i]).0) && field == (
                text::lower(headers[i].0),
                headers[i].1,
            ) {
            let i = choose|i: int|
                0 <= i < n && !is_kept_back((#[trigger] headers[i]).0) && field == (
                    text::lower(headers[i].0),
                    headers[i].1,
                );
            if i == n - 1 {
                assert(fields.last() == field);
            }
        }
    }
}

/// Over HTTP/2 and HTTP/3 the fields are the gateway's own two and every header
/// that is not kept back, its name in lower case and its value unchanged; nothing
/// else.
pub proof fn law_fields_are_sent(headers: Seq<HeaderView>, field: HeaderView)
    requires
        http2_fields(headers, headers.len()) is Some,
    ensures
        http2_fields(headers, headers.len())->0.contains(field) <==> field == (
            "user-agent"@,
            "hns-browser/0.2.4"@,
        ) || field == ("accept"@, "*/*"@) || exists|i: int|
            0 <= i < headers.len() && !is_kept_back((#[trigger] headers[i]).0) && field == (
                text::lower(headers[i].0),
                headers[i].1,
            ),
{
    lemma_fields_hold(headers, headers.len(), field);
}

/// The first line of a request is its method in upper case, its path and the
/// version; the second names its host, with the port unless it is the scheme's
/// own.
pub proof fn law_request_names_its_target(request: RequestView, keep_alive: bool)
    requires
        !request.method.contains('\r'),
        !request.path_and_query.contains('\r'),
        !request.host.contains('\r'),
    ensures
        text::lines(request_text(request, keep_alive)).len() > 2,
        text::lines(request_text(request, keep_alive))[0] == text::upper(request.method) + " "@
            + request.path_and_query + " HTTP/1.1"@,
        text::lines(request_text(request, keep_alive))[1] == "Host: "@ + host_field(
            request.host,
            request.port,
            request.scheme,
        ),
{
    reveal_strlit(" ");
    reveal_strlit(" HTTP/1.1");
    reveal_strlit("Host: ");
    reveal_strlit(" HTTP/1.1\r\nHost: ");
    reveal_strlit("\r\nUser-Agent: hns-browser/0.2.4\r\nAccept: */*\r\n");
    reveal_strlit("[");
    reveal_strlit("]");
    reveal_strlit(":");
    let sent = request_text(request, keep_alive);
    let head = request_head(request);
    let n = request.headers.len();
    let named = host_field(request.host, request.port, request.scheme);
    let first = text::upper(request.method) + " "@ + request.path_and_query + " HTTP/1.1"@;
    let second = "Host: "@ + named;
    lemma_headers_extend(head, request.headers, 0, n, false);
    let lines = with_headers(head, request.headers, n, false);
    assert(sent.take(lines.len() as int) =~= lines);
    assert(sent.take(head.len() as int) =~= head);
    let tail = sent.skip(first.len() as int + second.len() as int + 4);
    assert(head.take(first.len() as int + second.len() as int + 4) =~= first + seq!['\r', '\n']
        + second + seq!['\r', '\n']);
    assert(sent =~= first + seq!['\r', '\n'] + (second + seq!['\r', '\n'] + tail)) by {
        assert(sent =~= sent.take(first.len() as int + second.len() as int + 4) + tail);
        assert(sent.take(first.len() as int + second.len() as int + 4) =~= head.take(
            first.len() as int + second.len() as int + 4,
        ));
    }
    assert(!first.contains('\r')) by {
        if first.contains('\r') {
            let i = choose|i: int| 0 <= i < first.len() && first[i] == '\r';
            if i < request.method.len() {
                assert(text::upper(request.method)[i] == text::upper_char(request.method[i]));
                assert(request.method[i] == '\r');
            } else if request.method.len() < i <= request.method.len()
                + request.path_and_query.len() {
                assert(request.path_and_query[i - request.method.len() - 1] == '\r');
            }
        }
    }
    text::lemma_decimal_digits(request.port as nat);
    assert(!second.contains('\r')) by {
        if second.contains('\r') {
            let i = choose|i: int| 0 <= i < second.len() && second[i] == '\r';
            assert(named[i - 6] == '\r');
            let boxed = bracketed(request.host);
            if i - 6 < boxed.len() {
                assert(boxed[i - 6] == '\r');
                if boxed == request.host {
                    assert(request.host[i - 6] == '\r');
                } else {
                    assert(request.host[i - 7] == '\r');
                }
            } else if i - 6 > boxed.len() {
                assert(named[i - 6] == text::decimal(request.port as nat)[i - 6 - boxed.len() - 1]);
            }
        }
    }
    text::law_lines_undo_joining(first, second + seq!['\r', '\n'] + tail);
    text::law_lines_undo_joining(second, tail);
    assert(text::lines(tail).len() > 0);
}

/// The host of a request is written as it is, in brackets where it holds a colon
/// and has none yet, and the port follows exactly where it is not the scheme's
/// own: 443 for `https`, 80 for any other.
pub proof fn law_host_is_named_with_its_port(host: Seq<char>, port: u16, scheme: Seq<char>)
    ensures
        ({
            let shown = if host.contains(':') && host[0] != '[' {
                "["@ + host + "]"@
            } else {
                host
            };
            let own = if text::lower(scheme) == "https"@ {
                port == 443
            } else {
                port == 80
            };
            host_field(host, port, scheme) == (if own {
                shown
            } else {
                shown + ":"@ + text::decimal(port as nat)
            })
        }),
{
}

/// A name in HTTP is made of the visible ASCII characters that are no separators.
pub proof fn law_token_characters(c: char)
    ensures
        is_token_char(c) <==> {
            &&& '!' <= c <= '~'
            &&& c != '"' && c != '(' && c != ')' && c != ',' && c != '/' && c != ':' && c != ';'
            &&& c != '<' && c != '=' && c != '>' && c != '?' && c != '@' && c != '['
            &&& c != '\\' && c != ']' && c != '{' && c != '}'
        },
{
}

/// Whether a text can be a host: not empty, at most 253 bytes, no space or control
/// character, and nothing that would begin another part of an address.
pub open spec fn is_usable_host(host: Seq<char>) -> bool {
    &&& 0 < host.len()
    &&& encode_utf8(host).len() <= 253
    &&& forall|i: int|
        0 <= i < host.len() ==> (#[trigger] host[i]) > ' ' && host[i] != '\u{7f}' && host[i] != '/'
            && host[i] != '?' && host[i] != '#' && host[i] != '@'
}

/// A request is taken exactly where its method and the names of its headers are
/// tokens, its hosts are usable, its port is not zero, its path begins with a
/// slash and has no space or control character, no header breaks its line, its
/// body is within the limit, and it does not ask for another protocol.
pub proof fn law_fit_requests_are_taken(request: RequestView, limits: TransportLimits)
    ensures
        request_fault(request, limits) is None <==> {
            &&& is_token(request.method)
            &&& is_usable_host(request.host)
            &&& request.connect_host is Some ==> is_usable_host(request.connect_host->0)
            &&& request.port > 0
            &&& request.path_and_query.len() > 0 && request.path_and_query[0] == '/'
            &&& forall|i: int|
                0 <= i < request.path_and_query.len() ==> (#[trigger] request.path_and_query[i])
                    > ' ' && request.path_and_query[i] != '\u{7f}'
            &&& request.body.len() <= limits.max_request_body_bytes
            &&& forall|i: int|
                0 <= i < request.headers.len() ==> is_token((#[trigger] request.headers[i]).0)
                    && !request.headers[i].1.contains('\r') && !request.headers[i].1.contains('\n')
                    && !asks_upgrade(request.headers[i])
        },
        request_fault(request, limits) matches Some(error) ==> error
            == TransportError::InvalidRequest || error == TransportError::RequestTooLarge || error
            == TransportError::UnsupportedUpgrade,
{
    lemma_usable_host(request.host);
    if request.connect_host is Some {
        lemma_usable_host(request.connect_host->0);
    }
    let path = request.path_and_query;
    if path.len() > 0 && path[0] == '/' && forall|i: int|
        0 <= i < path.len() ==> (#[trigger] path[i]) > ' ' && path[i] != '\u{7f}' {
        assert(valid_path(path));
    }
    assert forall|i: int| 0 <= i < request.headers.len() implies (has_line_break(
        (#[trigger] request.headers[i]).1,
    ) <==> request.headers[i].1.contains('\r') || request.headers[i].1.contains('\n')) by {
        let value = request.headers[i].1;
        if has_line_break(value) {
            let k = choose|k: int| 0 <= k < value.len() && (#[trigger] value[k] == '\r' || value[k]
                == '\n');
            assert(value.contains(value[k]));
        }
        if value.contains('\r') {
            let k = choose|k: int| 0 <= k < value.len() && value[k] == '\r';
            assert(value[k] == '\r');
        }
        if value.contains('\n') {
            let k = choose|k: int| 0 <= k < value.len() && value[k] == '\n';
            assert(value[k] == '\n');
        }
    }
    if request_fault(request, limits) is None {
        assert(valid_path(path));
        assert forall|i: int| 0 <= i < path.len() implies (#[trigger] path[i]) > ' ' && path[i]
            != '\u{7f}' by {
            assert(!is_ascii_control(path[i]) && path[i] != ' ');
        }
        assert forall|i: int| 0 <= i < request.headers.len() implies is_token(
            (#[trigger] request.headers[i]).0,
        ) && !request.headers[i].1.contains('\r') && !request.headers[i].1.contains('\n')
            && !asks_upgrade(request.headers[i]) by {
            assert(valid_header(request.headers[i]));
        }
    }
}

proof fn lemma_usable_host(host: Seq<char>)
    ensures
        valid_host(host) <==> is_usable_host(host),
{
    if valid_host(host) {
        assert forall|i: int| 0 <= i < host.len() implies (#[trigger] host[i]) > ' ' && host[i]
            != '\u{7f}' && host[i] != '/' && host[i] != '?' && host[i] != '#' && host[i] != '@' by {
            assert(is_host_char(host[i]));
        }
    }
    if is_usable_host(host) {
        assert forall|i: int| 0 <= i < host.len() implies is_host_char(#[trigger] host[i]) by {
            assert(host[i] > ' ');
        }
    }
}

/// A list has a token exactly where one of its parts, white space and case aside,
/// is that token.
pub proof fn law_token_in_a_list(part: Seq<char>, rest: Seq<char>, token: Seq<char>)
    requires
        !part.contains(','),
    ensures
        has_token(part, token) <==> text::lower(text::trim(part)) == text::lower(token),
        has_token(part + seq![','] + rest, token) <==> has_token(part, token) || has_token(
            rest,
            token,
        ),
{
    let whole = part + seq![','] + rest;
    text::law_split_undoes_joining(part, rest, ',');
    let one = text::split(part, ',');
    let all = text::split(whole, ',');
    let tail = text::split(rest, ',');
    assert(one[0] == part);
    assert(all[0] == part);
    if has_token(whole, token) {
        let i = choose|i: int|
            0 <= i < all.len() && text::same_ignoring_case(text::trim(#[trigger] all[i]), token);
        if i == 0 {
            assert(text::same_ignoring_case(text::trim(one[0]), token));
        } else {
            assert(all[i] == tail[i - 1]);
        }
    }
    if has_token(part, token) {
        let i = choose|i: int|
            0 <= i < one.len() && text::same_ignoring_case(text::trim(#[trigger] one[i]), token);
        assert(text::same_ignoring_case(text::trim(all[0]), token));
    }
    if has_token(rest, token) {
        let i = choose|i: int|
            0 <= i < tail.len() && text::same_ignoring_case(text::trim(#[trigger] tail[i]), token);
        assert(all[i + 1] == tail[i]);
    }
    if text::lower(text::trim(part)) == text::lower(token) {
        assert(text::same_ignoring_case(text::trim(one[0]), token));
    }
}

/// Another protocol is asked for by an `Upgrade` header, or by a `Connection`
/// header that lists `upgrade`; by nothing else.
pub proof fn law_what_asks_for_an_upgrade(header: HeaderView)
    ensures
        asks_upgrade(header) <==> text::lower(header.0) == "upgrade"@ || (text::lower(header.0)
            == "connection"@ && has_token(header.1, "upgrade"@)),
{
    lemma_lower_names();
}

/// A tunnel is opened under the plain scheme: `ws` as `http`, `wss` as `https`,
/// the two themselves as they are, and no other.
pub proof fn law_tunnel_schemes(scheme: Seq<char>)
    ensures
        tunnel_scheme(scheme) == (if text::lower(scheme) == "ws"@ || text::lower(scheme)
            == "http"@ {
            Some("http"@)
        } else if text::lower(scheme) == "wss"@ || text::lower(scheme) == "https"@ {
            Some("https"@)
        } else {
            None
        }),
{
}

/// Connections are shared only under the same validation: two keys are the same
/// only where trust mode and security are the same, and the certificate
/// associations are the same in number, in usage, selector and matching, and in
/// the hash of their data.
pub proof fn law_shared_key_means_same_validation(a: TlsView, b: TlsView)
    requires
        tls_key(a) == tls_key(b),
    ensures
        a.mode == b.mode,
        a.dnssec_secure == b.dnssec_secure,
        a.tlsa_records.len() == b.tlsa_records.len(),
        forall|i: int|
            0 <= i < a.tlsa_records.len() ==> (#[trigger] a.tlsa_records[i]).usage
                == b.tlsa_records[i].usage && a.tlsa_records[i].selector
                == b.tlsa_records[i].selector && a.tlsa_records[i].matching
                == b.tlsa_records[i].matching && association_hash(
                a.tlsa_records[i].association_data,
            ) == association_hash(b.tlsa_records[i].association_data),
{
    let n = a.tlsa_records.len();
    let m = b.tlsa_records.len();
    let rest_a = lemma_key_has_its_start(a);
    let rest_b = lemma_key_has_its_start(b);
    lemma_same_start(
        a.mode,
        a.dnssec_secure,
        text::decimal(n) + rest_a,
        b.mode,
        b.dnssec_secure,
        text::decimal(m) + rest_b,
    );
    lemma_decimal_ends(n, rest_a);
    lemma_decimal_ends(m, rest_b);
    let whole = text::decimal(n) + rest_a;
    assert(whole == text::decimal(m) + rest_b);
    assert(text::decimal(n).len() == text::decimal(m).len());
    assert(text::decimal(n) =~= whole.take(text::decimal(n).len() as int));
    assert(text::decimal(m) =~= whole.take(text::decimal(m).len() as int));
    text::law_decimal_reads_back(n, n + m);
    text::law_decimal_reads_back(m, n + m);
    assert(n == m);
    lemma_same_associations(key_start(a), a.tlsa_records, key_start(b), b.tlsa_records, n);
}

/// What a key begins with, up to the number of associations.
pub open spec fn key_start(tls: TlsView) -> Seq<char> {
    "mode="@ + mode_text(tls.mode) + ";secure="@ + (if tls.dnssec_secure {
        "true"@
    } else {
        "false"@
    }) + ";records="@ + text::decimal(tls.tlsa_records.len())
}

proof fn lemma_decimal_ends(n: nat, rest: Seq<char>)
    requires
        rest.len() > 0 ==> rest[0] == ';',
    ensures
        text::find(text::decimal(n) + rest, ';') == text::decimal(n).len(),
{
    text::lemma_decimal_digits(n);
    let whole = text::decimal(n) + rest;
    assert forall|i: int| 0 <= i < text::decimal(n).len() implies whole[i] != ';' by {
        assert(whole[i] == text::decimal(n)[i]);
    }
    text::lemma_find_is(whole, ';', text::decimal(n).len() as int);
}

proof fn lemma_associations_follow(out: Seq<char>, records: Seq<TlsaView>, n: nat) -> (rest: Seq<
    char,
>)
    ensures
        with_associations(out, records, n) == out + rest,
        rest.len() > 0 ==> rest[0] == ';',
    decreases n,
{
    reveal_strlit(";");
    if n == 0 {
        assert(out + Seq::<char>::empty() =~= out);
        Seq::empty()
    } else {
        let record = records[n - 1];
        let before = lemma_associations_follow(out, records, (n - 1) as nat);
        let own = ";"@ + usage_text(record.usage) + ":"@ + selector_text(record.selector) + ":"@
            + matching_text(record.matching) + ":"@ + text::hex_number(
            association_hash(record.association_data) as nat,
            16,
        );
        assert(with_associations(out, records, n) =~= out + (before + own));
        assert((before + own)[0] == (if before.len() > 0 {
            before[0]
        } else {
            own[0]
        }));
        before + own
    }
}

proof fn lemma_key_has_its_start(tls: TlsView) -> (rest: Seq<char>)
    ensures
        tls_key(tls) == with_secure(tls.mode, tls.dnssec_secure) + (text::decimal(
            tls.tlsa_records.len(),
        ) + rest),
        rest.len() > 0 ==> rest[0] == ';',
{
    let rest = lemma_associations_follow(key_start(tls), tls.tlsa_records, tls.tlsa_records.len());
    assert(tls_key(tls) =~= with_secure(tls.mode, tls.dnssec_secure) + (text::decimal(
        tls.tlsa_records.len(),
    ) + rest));
    rest
}

spec fn with_secure(mode: DomainTrustMode, secure: bool) -> Seq<char> {
    "mode="@ + mode_text(mode) + ";secure="@ + (if secure {
        "true"@
    } else {
        "false"@
    }) + ";records="@
}

proof fn lemma_same_start(
    mode: DomainTrustMode,
    secure: bool,
    rest: Seq<char>,
    other_mode: DomainTrustMode,
    other_secure: bool,
    other_rest: Seq<char>,
)
    requires
        with_secure(mode, secure) + rest == with_secure(other_mode, other_secure) + other_rest,
    ensures
        mode == other_mode,
        secure == other_secure,
        rest == other_rest,
{
    reveal_strlit("mode=");
    reveal_strlit("HnsStrict");
    reveal_strlit("HnsCompatibility");
    reveal_strlit("IcannWebPki");
    reveal_strlit(";secure=");
    reveal_strlit("true");
    reveal_strlit("false");
    reveal_strlit(";records=");
    let a = with_secure(mode, secure) + rest;
    let b = with_secure(other_mode, other_secure) + other_rest;
    assert(a[5] == mode_text(mode)[0]);
    assert(b[5] == mode_text(other_mode)[0]);
    assert(a[8] == mode_text(mode)[3]);
    assert(b[8] == mode_text(other_mode)[3]);
    assert(mode == other_mode);
    let at = 5 + mode_text(mode).len() as int + 8;
    assert(a[at] == (if secure {
        't'
    } else {
        'f'
    }));
    assert(b[at] == (if other_secure {
        't'
    } else {
        'f'
    }));
    let start = with_secure(mode, secure);
    assert(rest =~= a.skip(start.len() as int));
    assert(other_rest =~= b.skip(start.len() as int));
}

proof fn lemma_same_tail(a: Seq<char>, x: Seq<char>, b: Seq<char>, y: Seq<char>)
    requires
        a + x == b + y,
        x.len() == y.len(),
    ensures
        a == b,
        x == y,
{
    assert((a + x).len() == a.len() + x.len());
    assert((b + y).len() == b.len() + y.len());
    assert(a =~= (a + x).take(a.len() as int));
    assert(b =~= (b + y).take(a.len() as int));
    assert(x =~= (a + x).skip(a.len() as int));
    assert(y =~= (b + y).skip(a.len() as int));
}

proof fn lemma_same_associations(
    out: Seq<char>,
    records: Seq<TlsaView>,
    other_out: Seq<char>,
    others: Seq<TlsaView>,
    n: nat,
)
    requires
        n <= records.len(),
        n <= others.len(),
        with_associations(out, records, n) == with_associations(other_out, others, n),
    ensures
        forall|i: int|
            0 <= i < n ==> (#[trigger] records[i]).usage == others[i].usage && records[i].selector
                == others[i].selector && records[i].matching == others[i].matching
                && association_hash(records[i].association_data) == association_hash(
                others[i].association_data,
            ),
    decreases n,
{
    if n > 0 {
        let r = records[n - 1];
        let o = others[n - 1];
        let before = with_associations(out, records, (n - 1) as nat);
        let other_before = with_associations(other_out, others, (n - 1) as nat);
        lemma_same_association(before, r, other_before, o);
        lemma_same_associations(out, records, other_out, others, (n - 1) as nat);
    }
}

proof fn lemma_same_association(
    before: Seq<char>,
    r: TlsaView,
    other_before: Seq<char>,
    o: TlsaView,
)
    requires
        before + ";"@ + usage_text(r.usage) + ":"@ + selector_text(r.selector) + ":"@
            + matching_text(r.matching) + ":"@ + text::hex_number(
            association_hash(r.association_data) as nat,
            16,
        ) == other_before + ";"@ + usage_text(o.usage) + ":"@ + selector_text(o.selector) + ":"@
            + matching_text(o.matching) + ":"@ + text::hex_number(
            association_hash(o.association_data) as nat,
            16,
        ),
    ensures
        before == other_before,
        r.usage == o.usage,
        r.selector == o.selector,
        r.matching == o.matching,
        association_hash(r.association_data) == association_hash(o.association_data),
{
    reveal_strlit("PkixTa");
    reveal_strlit("PkixEe");
    reveal_strlit("DaneTa");
    reveal_strlit("DaneEe");
    reveal_strlit("FullCertificate");
    reveal_strlit("SubjectPublicKeyInfo");
    reveal_strlit("Exact");
    reveal_strlit("Sha256");
    reveal_strlit("Sha512");
    let h = association_hash(r.association_data);
    let g = association_hash(o.association_data);
    text::law_hex_numbers_differ(h, g);
    text::law_hex_numbers_differ(g, h);
    let a1 = before + ";"@;
    let b1 = other_before + ";"@;
    let a2 = a1 + usage_text(r.usage);
    let b2 = b1 + usage_text(o.usage);
    let a3 = a2 + ":"@;
    let b3 = b2 + ":"@;
    let a4 = a3 + selector_text(r.selector);
    let b4 = b3 + selector_text(o.selector);
    let a5 = a4 + ":"@;
    let b5 = b4 + ":"@;
    let a6 = a5 + matching_text(r.matching);
    let b6 = b5 + matching_text(o.matching);
    let a7 = a6 + ":"@;
    let b7 = b6 + ":"@;
    lemma_same_tail(a7, text::hex_number(h as nat, 16), b7, text::hex_number(g as nat, 16));
    lemma_same_tail(a6, ":"@, b6, ":"@);
    assert(a6.last() == matching_text(r.matching).last());
    assert(b6.last() == matching_text(o.matching).last());
    assert(r.matching == o.matching);
    lemma_same_tail(a5, matching_text(r.matching), b5, matching_text(o.matching));
    lemma_same_tail(a4, ":"@, b4, ":"@);
    assert(a4.last() == selector_text(r.selector).last());
    assert(b4.last() == selector_text(o.selector).last());
    assert(r.selector == o.selector);
    lemma_same_tail(a3, selector_text(r.selector), b3, selector_text(o.selector));
    lemma_same_tail(a2, ":"@, b2, ":"@);
    lemma_same_tail(a1, usage_text(r.usage), b1, usage_text(o.usage));
    assert(usage_text(r.usage)[0] == usage_text(o.usage)[0]);
    assert(usage_text(r.usage)[4] == usage_text(o.usage)[4]);
    lemma_same_tail(before, ";"@, other_before, ";"@);
}

/// A tunnel is opened for a request that is fit but for its headers, has no body
/// and asks for another protocol, if its headers are fit to be sent.
pub proof fn law_fit_tunnels_are_opened(request: RequestView, limits: TransportLimits)
    ensures
        tunnel_fault(request, limits) is None <==> {
            &&& request_fault(RequestView { headers: Seq::empty(), ..request }, limits) is None
            &&& request.body.len() == 0
            &&& exists|i: int|
                0 <= i < request.headers.len() && asks_upgrade(#[trigger] request.headers[i])
            &&& forall|i: int|
                0 <= i < request.headers.len() ==> is_token((#[trigger] request.headers[i]).0)
                    && !has_line_break(request.headers[i].1)
        },
{
    if forall|i: int|
        0 <= i < request.headers.len() ==> is_token((#[trigger] request.headers[i]).0)
            && !has_line_break(request.headers[i].1) {
        assert forall|i: int| 0 <= i < request.headers.len() implies valid_header(
            #[trigger] request.headers[i],
        ) by {
        }
    }
    if tunnel_fault(request, limits) is None {
        assert forall|i: int| 0 <= i < request.headers.len() implies is_token(
            (#[trigger] request.headers[i]).0,
        ) && !has_line_break(request.headers[i].1) by {
            assert(valid_header(request.headers[i]));
        }
    }
}

} // verus!
