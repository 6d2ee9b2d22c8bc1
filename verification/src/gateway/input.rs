//! Requests from the browser.
use crate::dns;
use crate::name;
use crate::resolver::ResolutionRequest;
use crate::system::UdpTcpDnsTransport;
use crate::text;
use crate::transport::request;
use crate::transport::types;
use crate::transport::types::{
    DomainTrustMode, Header, HeaderView, OriginProtocol, OriginRequest, RequestView, TlsView,
    TlsValidation,
};
use vstd::prelude::*;
use vstd::string::*;
use vstd::utf8::*;

verus! {

pub const MAX_GATEWAY_HEADER_TEXT_BYTES: usize = 65_536;

/// How long a compatible gateway waits for a nameserver, in milliseconds.
pub const ANDROID_COMPAT_AUTHORITATIVE_DNS_TIMEOUT_MS: u64 = 900;

/// A request as the browser hands it over.
pub struct GatewayHttpRequestInput<'a> {
    pub data_dir: &'a str,
    pub method: &'a str,
    pub scheme: &'a str,
    pub host: &'a str,
    pub port: u16,
    pub path_and_query: &'a str,
    pub header_text: &'a str,
    pub body: &'a Vec<u8>,
}

pub struct InputView {
    pub method: Seq<char>,
    pub scheme: Seq<char>,
    pub host: Seq<char>,
    pub port: u16,
    pub path_and_query: Seq<char>,
    pub header_text: Seq<char>,
    pub body: Seq<u8>,
}

impl<'a> View for GatewayHttpRequestInput<'a> {
    type V = InputView;

    open spec fn view(&self) -> InputView {
        InputView {
            method: self.method@,
            scheme: self.scheme@,
            host: self.host@,
            port: self.port,
            path_and_query: self.path_and_query@,
            header_text: self.header_text@,
            body: self.body@,
        }
    }
}

#[derive(Clone, Copy, Debug, PartialEq, Eq, Structural)]
pub enum GatewayResolutionMode {
    Strict,
    Compatibility,
}

pub open spec fn mode_of(strict: bool) -> GatewayResolutionMode {
    if strict {
        GatewayResolutionMode::Strict
    } else {
        GatewayResolutionMode::Compatibility
    }
}

impl GatewayResolutionMode {
    pub fn from_strict_hns_mode(strict_hns_mode: bool) -> (r: Self)
        ensures
            r == mode_of(strict_hns_mode),
    {
        if strict_hns_mode {
            GatewayResolutionMode::Strict
        } else {
            GatewayResolutionMode::Compatibility
        }
    }

    pub open spec fn text(self) -> Seq<char> {
        match self {
            GatewayResolutionMode::Strict => "strict"@,
            GatewayResolutionMode::Compatibility => "compatibility"@,
        }
    }

    pub fn as_str(self) -> (r: &'static str)
        ensures
            r@ == self.text(),
    {
        match self {
            GatewayResolutionMode::Strict => "strict",
            GatewayResolutionMode::Compatibility => "compatibility",
        }
    }
}

/// The nameserver transport of a mode.
pub fn android_authoritative_dns_transport(mode: GatewayResolutionMode) -> (r: UdpTcpDnsTransport)
    ensures
        r.timeout_ms == (if mode == GatewayResolutionMode::Compatibility {
            ANDROID_COMPAT_AUTHORITATIVE_DNS_TIMEOUT_MS
        } else {
            3000
        }),
        r.max_udp_response_len == dns::DEFAULT_DNS_UDP_PAYLOAD,
        r.max_tcp_message_len == dns::DEFAULT_DNS_TCP_MAX_MESSAGE_LEN,
{
    let mut transport = UdpTcpDnsTransport::default();
    if mode == GatewayResolutionMode::Compatibility {
        transport.timeout_ms = ANDROID_COMPAT_AUTHORITATIVE_DNS_TIMEOUT_MS;
    }
    transport
}

/// The headers that go on to the origin, and whether the browser asked for
/// strict resolution.
#[derive(Clone, Debug, PartialEq, Eq)]
pub struct ParsedGatewayHeaders {
    pub headers: Vec<Header>,
    pub strict_hns_mode: bool,
}

pub struct ParsedView {
    pub headers: Seq<HeaderView>,
    pub strict: bool,
}

impl View for ParsedGatewayHeaders {
    type V = ParsedView;

    open spec fn view(&self) -> ParsedView {
        ParsedView { headers: types::header_views(self.headers@), strict: self.strict_hns_mode }
    }
}

/// A header name that the gateway takes.
pub open spec fn is_gateway_name(name: Seq<char>) -> bool {
    name.len() > 0 && forall|i: int|
        0 <= i < name.len() ==> !request::is_ascii_control(#[trigger] name[i]) && name[i] != ' '
            && name[i] != ':'
}

fn gateway_name_is_valid(name: &Vec<char>) -> (r: bool)
    ensures
        r == is_gateway_name(name@),
{
    let mut i: usize = 0;
    while i < name.len()
        invariant
            i <= name@.len(),
            forall|j: int|
                0 <= j < i ==> !request::is_ascii_control(#[trigger] name@[j]) && name@[j] != ' '
                    && name@[j] != ':',
        decreases name@.len() - i,
    {
        let c = name[i];
        if c <= '\u{1f}' || c == '\u{7f}' || c == ' ' || c == ':' {
            return false;
        }
        i = i + 1;
    }
    name.len() > 0
}

fn value_breaks_line(value: &Vec<char>) -> (r: bool)
    ensures
        r == request::has_line_break(value@),
{
    let mut i: usize = 0;
    while i < value.len()
        invariant
            i <= value@.len(),
            forall|j: int| 0 <= j < i ==> #[trigger] value@[j] != '\r' && value@[j] != '\n',
        decreases value@.len() - i,
    {
        if value[i] == '\r' || value[i] == '\n' {
            return true;
        }
        i = i + 1;
    }
    false
}

/// Whether a value asks for strict resolution.
pub open spec fn asks_strict(value: Seq<char>) -> bool {
    value == "1"@ || text::same_ignoring_case(value, "true"@)
}

pub open spec fn is_strict_header(name: Seq<char>) -> bool {
    text::same_ignoring_case(name, "X-HNS-Browser-Strict-Mode"@)
}

/// What one more line makes of the headers so far. The header that asks for
/// strict resolution is the gateway's own and goes no further.
pub open spec fn line_taken(so_far: ParsedView, line: Seq<char>) -> Result<ParsedView, Seq<char>> {
    let at = text::find(line, ':');
    let name = text::trim(line.take(at as int));
    let value = text::trim(line.skip(at as int + 1));
    if line.len() == 0 {
        Ok(so_far)
    } else if at >= line.len() {
        Err("request header is malformed"@)
    } else if !is_gateway_name(name) || request::has_line_break(value) {
        Err("request header is invalid"@)
    } else if is_strict_header(name) {
        Ok(ParsedView { strict: so_far.strict || asks_strict(value), ..so_far })
    } else {
        Ok(ParsedView { headers: so_far.headers.push((name, value)), ..so_far })
    }
}

/// What the first `n` lines come to: the first line that is refused decides.
pub open spec fn lines_taken(lines: Seq<Seq<char>>, n: nat) -> Result<ParsedView, Seq<char>>
    decreases n,
{
    if n == 0 {
        Ok(ParsedView { headers: Seq::empty(), strict: false })
    } else {
        match lines_taken(lines, (n - 1) as nat) {
            Err(reason) => Err(reason),
            Ok(so_far) => line_taken(so_far, lines[n - 1]),
        }
    }
}

/// The headers in the browser's header text.
pub open spec fn gateway_headers(header_text: Seq<char>) -> Result<ParsedView, Seq<char>> {
    if encode_utf8(header_text).len() > MAX_GATEWAY_HEADER_TEXT_BYTES {
        Err("request headers are too large"@)
    } else {
        lines_taken(text::lines(header_text), text::lines(header_text).len())
    }
}

proof fn lemma_lines_stay_refused(lines: Seq<Seq<char>>, n: nat, m: nat)
    requires
        n <= m,
        lines_taken(lines, n) is Err,
    ensures
        lines_taken(lines, m) == lines_taken(lines, n),
    decreases m,
{
    if n < m {
        lemma_lines_stay_refused(lines, n, (m - 1) as nat);
    }
}

pub fn parse_gateway_headers(header_text: &str) -> (r: Result<ParsedGatewayHeaders, &'static str>)
    ensures
        match r {
            Ok(parsed) => gateway_headers(header_text@) == Ok::<_, Seq<char>>(parsed@),
            Err(reason) => gateway_headers(header_text@) == Err::<ParsedView, _>(reason@),
        },
{
    let bytes = header_text.as_bytes_vec();
    if bytes.len() > MAX_GATEWAY_HEADER_TEXT_BYTES {
        return Err("request headers are too large");
    }
    let cs = text::chars_of(header_text);
    let lines = text::split_lines(&cs);
    let ghost all = text::lines(header_text@);
    assert(text::views(lines@).len() == lines@.len());
    let mut headers: Vec<Header> = Vec::new();
    let mut strict_hns_mode = false;
    let mut i: usize = 0;
    assert(types::header_views(headers@) =~= Seq::empty());
    while i < lines.len()
        invariant
            i <= lines@.len(),
            all == text::lines(header_text@),
            text::views(lines@) == all,
            all.len() == lines@.len(),
            encode_utf8(header_text@).len() <= MAX_GATEWAY_HEADER_TEXT_BYTES,
            lines_taken(all, i as nat) == Ok::<_, Seq<char>>(
                ParsedView { headers: types::header_views(headers@), strict: strict_hns_mode },
            ),
        decreases lines@.len() - i,
    {
        assert(text::views(lines@)[i as int] == lines@[i as int]@);
        proof {
            if lines_taken(all, (i + 1) as nat) is Err {
                lemma_lines_stay_refused(all, (i + 1) as nat, all.len());
            }
        }
        let line = &lines[i];
        if line.len() > 0 {
            let at: usize = text::find_char(line, ':');
            if at >= line.len() {
                return Err("request header is malformed");
            }
            let name = text::chars_range(line, 0, at);
            assert(name@ =~= line@.take(at as int));
            let name = text::trimmed(&name);
            let value = text::chars_range(line, at + 1, line.len());
            assert(value@ =~= line@.skip(at + 1));
            let value = text::trimmed(&value);
            if !gateway_name_is_valid(&name) || value_breaks_line(&value) {
                return Err("request header is invalid");
            }
            let name = text::text_of(&name);
            let value = text::text_of(&value);
            if text::eq_ignore_case(name.as_str(), "X-HNS-Browser-Strict-Mode") {
                if text::same_text(value.as_str(), "1") || text::eq_ignore_case(
                    value.as_str(),
                    "true",
                ) {
                    strict_hns_mode = true;
                }
            } else {
                let ghost before = types::header_views(headers@);
                let ghost seen = (name@, value@);
                headers.push((name, value));
                assert(types::header_views(headers@) =~= before.push(seen));
            }
        }
        i = i + 1;
    }
    Ok(ParsedGatewayHeaders { headers, strict_hns_mode })
}

/// A request for the origin, and for the name that leads to it.
#[derive(Clone, Debug, PartialEq, Eq)]
pub struct GatewayRequest {
    pub origin: OriginRequest,
    pub resolution: ResolutionRequest,
}

pub open spec fn wants_tls(scheme: Seq<char>) -> bool {
    text::same_ignoring_case(scheme, "https"@) || text::same_ignoring_case(scheme, "wss"@)
}

/// The request for the origin behind the browser's request.
pub open spec fn origin_of(input: InputView, headers: Seq<HeaderView>) -> RequestView {
    RequestView {
        method: input.method,
        scheme: text::lower(input.scheme),
        host: input.host,
        connect_host: None,
        port: input.port,
        path_and_query: input.path_and_query,
        protocol: OriginProtocol::Http11,
        tls: TlsView {
            mode: if wants_tls(input.scheme) {
                DomainTrustMode::HnsCompatibility
            } else {
                DomainTrustMode::IcannWebPki
            },
            dnssec_secure: false,
            tlsa_records: Seq::empty(),
        },
        headers,
        body: input.body,
    }
}

pub fn gateway_request(input: &GatewayHttpRequestInput<'_>, headers: Vec<Header>) -> (r:
    GatewayRequest)
    ensures
        r.origin@ == origin_of(input@, types::header_views(headers@)),
        r.resolution.qname@ == input@.host,
        r.resolution.qtype == 1,
{
    let tls = if text::eq_ignore_case(input.scheme, "https") || text::eq_ignore_case(
        input.scheme,
        "wss",
    ) {
        let none: Vec<types::TlsaRecord> = Vec::new();
        assert(types::tlsa_views(none@) =~= Seq::empty());
        TlsValidation::hns_compatibility(false, none)
    } else {
        TlsValidation::default()
    };
    GatewayRequest {
        origin: OriginRequest {
            method: input.method.to_owned(),
            scheme: text::to_lower(input.scheme),
            host: input.host.to_owned(),
            connect_host: None,
            port: input.port,
            path_and_query: input.path_and_query.to_owned(),
            protocol: OriginProtocol::Http11,
            tls,
            headers,
            body: dns::copy_bytes(input.body),
        },
        resolution: ResolutionRequest { qname: input.host.to_owned(), qtype: 1 },
    }
}

/// The port in an address, left out where it is the scheme's own.
pub open spec fn port_part(scheme: Seq<char>, port: u16) -> Seq<char> {
    if ((scheme == "http"@ || scheme == "ws"@) && port == 80) || ((scheme == "https"@ || scheme
        == "wss"@) && port == 443) {
        ""@
    } else {
        ":"@ + text::decimal(port as nat)
    }
}

/// The address that the browser asked for.
pub open spec fn address_of(input: InputView) -> Seq<char> {
    let scheme = text::lower(input.scheme);
    scheme + "://"@ + input.host + port_part(scheme, input.port) + (if input.path_and_query.len()
        == 0 {
        "/"@
    } else {
        input.path_and_query
    })
}

pub fn gateway_request_address(input: &GatewayHttpRequestInput<'_>) -> (r: String)
    ensures
        r@ == address_of(input@),
{
    let scheme = text::to_lower(input.scheme);
    let own = ((text::same_text(scheme.as_str(), "http") || text::same_text(
        scheme.as_str(),
        "ws",
    )) && input.port == 80) || ((text::same_text(scheme.as_str(), "https") || text::same_text(
        scheme.as_str(),
        "wss",
    )) && input.port == 443);
    let port = if own {
        "".to_owned()
    } else {
        let mut port = ":".to_owned();
        text::push_decimal(&mut port, input.port as u64);
        port
    };
    let mut out = scheme;
    out.append("://");
    out.append(input.host);
    out.append(port.as_str());
    if input.path_and_query.is_empty() {
        out.append("/");
    } else {
        out.append(input.path_and_query);
    }
    out
}

/// Nothing of the browser's word on strict resolution reaches the origin.
pub proof fn law_control_header_stays_here(header_text: Seq<char>)
    requires
        gateway_headers(header_text) is Ok,
    ensures
        forall|i: int|
            0 <= i < gateway_headers(header_text)->Ok_0.headers.len() ==> !is_strict_header(
                (#[trigger] gateway_headers(header_text)->Ok_0.headers[i]).0,
            ),
{
    lemma_no_control_header(text::lines(header_text), text::lines(header_text).len());
}

proof fn lemma_no_control_header(lines: Seq<Seq<char>>, n: nat)
    requires
        lines_taken(lines, n) is Ok,
    ensures
        forall|i: int|
            0 <= i < lines_taken(lines, n)->Ok_0.headers.len() ==> !is_strict_header(
                (#[trigger] lines_taken(lines, n)->Ok_0.headers[i]).0,
            ),
    decreases n,
{
    if n > 0 {
        lemma_no_control_header(lines, (n - 1) as nat);
        let before = lines_taken(lines, (n - 1) as nat)->Ok_0.headers;
        let after = lines_taken(lines, n)->Ok_0.headers;
        assert forall|i: int| 0 <= i < after.len() implies !is_strict_header(
            (#[trigger] after[i]).0,
        ) by {
            if i < before.len() {
                assert(after[i] == before[i]);
            }
        }
    }
}

/// Headers that the gateway passes on never break into another line.
pub proof fn law_passed_headers_keep_their_line(header_text: Seq<char>)
    requires
        gateway_headers(header_text) is Ok,
    ensures
        forall|i: int|
            0 <= i < gateway_headers(header_text)->Ok_0.headers.len() ==> !request::has_line_break(
                (#[trigger] gateway_headers(header_text)->Ok_0.headers[i]).1,
            ),
{
    lemma_no_line_break(text::lines(header_text), text::lines(header_text).len());
}

proof fn lemma_no_line_break(lines: Seq<Seq<char>>, n: nat)
    requires
        lines_taken(lines, n) is Ok,
    ensures
        forall|i: int|
            0 <= i < lines_taken(lines, n)->Ok_0.headers.len() ==> !request::has_line_break(
                (#[trigger] lines_taken(lines, n)->Ok_0.headers[i]).1,
            ),
    decreases n,
{
    if n > 0 {
        lemma_no_line_break(lines, (n - 1) as nat);
        let before = lines_taken(lines, (n - 1) as nat)->Ok_0.headers;
        let after = lines_taken(lines, n)->Ok_0.headers;
        assert forall|i: int| 0 <= i < after.len() implies !request::has_line_break(
            (#[trigger] after[i]).1,
        ) by {
            if i < before.len() {
                assert(after[i] == before[i]);
            }
        }
    }
}

/// Whether a header can be written on a line of its own and read back: its name is
/// one that the gateway takes, with no white space at its ends, and its value has
/// no line break and no white space at its ends.
pub open spec fn is_plain_header(header: HeaderView) -> bool {
    &&& header.0.len() > 0
    &&& forall|i: int|
        0 <= i < header.0.len() ==> (#[trigger] header.0[i]) >= '!' && header.0[i] != ':'
            && header.0[i] != '\u{7f}'
    &&& !text::is_space(header.0[0]) && !text::is_space(header.0.last())
    &&& !header.1.contains('\r')
    &&& !header.1.contains('\n')
    &&& header.1.len() > 0 ==> !text::is_space(header.1[0]) && !text::is_space(header.1.last())
}

proof fn lemma_plain_line(so_far: ParsedView, header: HeaderView)
    requires
        is_plain_header(header),
    ensures
        text::lower(header.0) != "x-hns-browser-strict-mode"@ ==> line_taken(
            so_far,
            header.0 + ": "@ + header.1,
        ) == Ok::<ParsedView, Seq<char>>(
            ParsedView { headers: so_far.headers.push(header), ..so_far },
        ),
        text::lower(header.0) == "x-hns-browser-strict-mode"@ ==> line_taken(
            so_far,
            header.0 + ": "@ + header.1,
        ) == Ok::<ParsedView, Seq<char>>(
            ParsedView {
                strict: so_far.strict || header.1 == "1"@ || text::lower(header.1) == "true"@,
                ..so_far
            },
        ),
{
    reveal_strlit(": ");
    reveal_strlit("true");
    reveal_strlit("X-HNS-Browser-Strict-Mode");
    reveal_strlit("x-hns-browser-strict-mode");
    assert(text::lower("true"@) =~= "true"@);
    assert(text::lower("X-HNS-Browser-Strict-Mode"@) =~= "x-hns-browser-strict-mode"@);
    let (name, value) = header;
    let line = name + ": "@ + value;
    text::lemma_find_is(line, ':', name.len() as int);
    assert(line.take(name.len() as int) =~= name);
    assert(line.skip(name.len() as int + 1) =~= seq![' '] + value);
    text::law_trimmed_text_stays(name);
    text::law_trimmed_text_stays(value);
    assert(is_gateway_name(name));
    if request::has_line_break(value) {
        let i = choose|i: int| 0 <= i < value.len() && (#[trigger] value[i] == '\r' || value[i]
            == '\n');
        assert(value.contains(value[i]));
    }
}

proof fn lemma_plain_lines(lines: Seq<Seq<char>>, headers: Seq<HeaderView>, n: nat)
    requires
        headers.len() <= lines.len(),
        n <= lines.len(),
        forall|i: int|
            0 <= i < headers.len() ==> is_plain_header(#[trigger] headers[i]) && text::lower(
                headers[i].0,
            ) != "x-hns-browser-strict-mode"@,
        forall|i: int|
            #![trigger lines[i]]
            0 <= i < headers.len() ==> lines[i] == headers[i].0 + ": "@ + headers[i].1,
        forall|i: int| headers.len() <= i < lines.len() ==> (#[trigger] lines[i]).len() == 0,
    ensures
        lines_taken(lines, n) == Ok::<ParsedView, Seq<char>>(
            ParsedView {
                headers: headers.take(
                    if n <= headers.len() {
                        n as int
                    } else {
                        headers.len() as int
                    },
                ),
                strict: false,
            },
        ),
    decreases n,
{
    if n == 0 {
        assert(headers.take(0) =~= Seq::empty());
    } else {
        lemma_plain_lines(lines, headers, (n - 1) as nat);
        if n <= headers.len() {
            assert(lines[n - 1] == headers[n - 1].0 + ": "@ + headers[n - 1].1);
            assert(is_plain_header(headers[n - 1]));
            lemma_plain_line(
                ParsedView { headers: headers.take(n - 1), strict: false },
                headers[n - 1],
            );
            assert(headers.take(n - 1).push(headers[n - 1]) =~= headers.take(n as int));
        } else {
            assert(lines[n - 1].len() == 0);
        }
    }
}

/// The browser's headers go on as they were written: every line `name: value` is
/// one header, in order, name and value unchanged, and empty lines at the end are
/// none.
pub proof fn law_browser_headers_read_back(header_text: Seq<char>, headers: Seq<HeaderView>)
    requires
        encode_utf8(header_text).len() <= 65_536,
        headers.len() <= text::lines(header_text).len(),
        forall|i: int|
            0 <= i < headers.len() ==> is_plain_header(#[trigger] headers[i]) && text::lower(
                headers[i].0,
            ) != "x-hns-browser-strict-mode"@,
        forall|i: int|
            #![trigger text::lines(header_text)[i]]
            0 <= i < headers.len() ==> text::lines(header_text)[i] == headers[i].0 + ": "@
                + headers[i].1,
        forall|i: int|
            headers.len() <= i < text::lines(header_text).len() ==> (#[trigger] text::lines(
                header_text,
            )[i]).len() == 0,
    ensures
        gateway_headers(header_text) == Ok::<ParsedView, Seq<char>>(
            ParsedView { headers, strict: false },
        ),
{
    let lines = text::lines(header_text);
    lemma_plain_lines(lines, headers, lines.len());
    assert(headers.take(headers.len() as int) =~= headers);
}

/// Strict resolution is asked for by the browser's own header with the value 1 or
/// true, which then goes no further; without it nothing changes.
pub proof fn law_strict_mode_is_asked_for(so_far: ParsedView, value: Seq<char>)
    requires
        is_plain_header(("X-HNS-Browser-Strict-Mode"@, value)),
    ensures
        line_taken(so_far, "X-HNS-Browser-Strict-Mode"@ + ": "@ + value) == Ok::<
            ParsedView,
            Seq<char>,
        >(
            ParsedView {
                strict: so_far.strict || value == "1"@ || text::lower(value) == "true"@,
                ..so_far
            },
        ),
{
    reveal_strlit("X-HNS-Browser-Strict-Mode");
    reveal_strlit("x-hns-browser-strict-mode");
    assert(text::lower("X-HNS-Browser-Strict-Mode"@) =~= "x-hns-browser-strict-mode"@);
    lemma_plain_line(so_far, ("X-HNS-Browser-Strict-Mode"@, value));
}

/// The request for the origin is the browser's: method, host, port, path, headers
/// and body as they came, and the scheme in lower case. Nothing has been validated
/// yet, so nothing is claimed of its security.
pub proof fn law_request_goes_on_as_it_came(input: InputView, headers: Seq<HeaderView>)
    ensures
        ({
            let origin = origin_of(input, headers);
            &&& origin.method == input.method
            &&& origin.host == input.host
            &&& origin.connect_host is None
            &&& origin.port == input.port
            &&& origin.path_and_query == input.path_and_query
            &&& origin.headers == headers
            &&& origin.body == input.body
            &&& origin.scheme.len() == input.scheme.len()
            &&& text::same_ignoring_case(origin.scheme, input.scheme)
            &&& !origin.tls.dnssec_secure
            &&& origin.tls.tlsa_records.len() == 0
            &&& (text::lower(input.scheme) == "https"@ || text::lower(input.scheme) == "wss"@)
                <==> origin.tls.mode == DomainTrustMode::HnsCompatibility
        }),
{
    reveal_strlit("https");
    reveal_strlit("wss");
    assert(text::lower("https"@) =~= "https"@);
    assert(text::lower("wss"@) =~= "wss"@);
    assert(text::lower(text::lower(input.scheme)) =~= text::lower(input.scheme));
}

/// The address that is shown for a request is its scheme, host, port and path; a
/// port that is the scheme's own is left out, and no path is shown as a slash.
pub proof fn law_address_is_the_requests(input: InputView)
    ensures
        ({
            let scheme = text::lower(input.scheme);
            let own = (input.port == 80 && (scheme == "http"@ || scheme == "ws"@)) || (input.port
                == 443 && (scheme == "https"@ || scheme == "wss"@));
            address_of(input) == scheme + "://"@ + input.host + (if own {
                Seq::<char>::empty()
            } else {
                ":"@ + text::decimal(input.port as nat)
            }) + (if input.path_and_query.len() == 0 {
                "/"@
            } else {
                input.path_and_query
            })
        }),
{
    reveal_strlit("");
    assert(""@ =~= Seq::<char>::empty());
}

} // verus!
