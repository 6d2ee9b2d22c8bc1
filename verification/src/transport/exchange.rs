//! One request and its response, over any of the protocols.
use crate::text;
use crate::transport::altsvc;
use crate::transport::altsvc::AltSvcTable;
use crate::transport::pool;
use crate::transport::pool::{
    ConnectionPool, ConnectionView, Http11PoolKey, PooledHttp11Connection, SlotView,
};
use crate::transport::request;
use crate::transport::response;
use crate::transport::types;
use crate::transport::types::{
    DaneDecision, Header, HeaderView, OriginProtocol, OriginRequest, OriginResponse,
    OriginResponseHead, RequestView, TlsCertificateInspection, TransportError, TransportLimits,
};
use vstd::prelude::*;
use vstd::string::*;

verus! {

/// The longest that a tunnel waits for its origin before it looks around, in
/// milliseconds.
pub const TUNNEL_READ_TIMEOUT_MS: u64 = 250;

/// The way a request goes.
#[derive(Clone, Copy, Debug, PartialEq, Eq, Structural)]
pub enum FetchRoute {
    PlainHttp11,
    TlsHttp11,
    TlsHttp2,
    TlsHttp3,
}

/// The way a request goes, by its scheme and its protocol: nothing but
/// HTTP/1.1 goes in the clear.
pub open spec fn route_of(request: RequestView) -> Result<FetchRoute, TransportError> {
    let scheme = text::lower(request.scheme);
    if scheme == "http"@ {
        if request.protocol == OriginProtocol::Http11 {
            Ok(FetchRoute::PlainHttp11)
        } else {
            Err(TransportError::UnsupportedTransport)
        }
    } else if scheme == "https"@ {
        Ok(
            match request.protocol {
                OriginProtocol::Http11 => FetchRoute::TlsHttp11,
                OriginProtocol::Http2 => FetchRoute::TlsHttp2,
                OriginProtocol::Http3 => FetchRoute::TlsHttp3,
            },
        )
    } else {
        Err(TransportError::UnsupportedScheme)
    }
}

pub fn fetch_route(request: &OriginRequest) -> (r: Result<FetchRoute, TransportError>)
    ensures
        r == route_of(request@),
{
    let scheme = text::to_lower(request.scheme.as_str());
    if text::same_text(scheme.as_str(), "http") {
        match request.protocol {
            OriginProtocol::Http11 => Ok(FetchRoute::PlainHttp11),
            _ => Err(TransportError::UnsupportedTransport),
        }
    } else if text::same_text(scheme.as_str(), "https") {
        match request.protocol {
            OriginProtocol::Http11 => Ok(FetchRoute::TlsHttp11),
            OriginProtocol::Http2 => Ok(FetchRoute::TlsHttp2),
            OriginProtocol::Http3 => Ok(FetchRoute::TlsHttp3),
        }
    } else {
        Err(TransportError::UnsupportedScheme)
    }
}

/// A tunnel to an origin: the head it answered with, and the stream by the
/// number that its owner knows it under.
#[derive(Clone, Debug, PartialEq, Eq)]
pub struct OriginTunnel {
    pub response_head: Vec<u8>,
    pub stream: u64,
    pub dane_decision: DaneDecision,
    pub tls_inspection: Option<TlsCertificateInspection>,
}

/// Fetches from origins.
pub trait OriginTransport: Sized {
    /// Whether fetching may end in `reply`.
    /// By default anything may.
    open spec fn fetches(
        pre: Self,
        request: RequestView,
        reply: Result<OriginResponse, TransportError>,
        post: Self,
    ) -> bool {
        true
    }

    fn fetch(&mut self, request: &OriginRequest) -> (r: Result<OriginResponse, TransportError>)
        ensures
            Self::fetches(*old(self), request@, r, *final(self)),
    ;

    /// Opens a tunnel. A transport that does not say how opens none.
    fn open_tunnel(&mut self, request: &OriginRequest) -> (r: Result<OriginTunnel, TransportError>)
        default_ensures
            r == Err::<OriginTunnel, _>(TransportError::UnsupportedTransport),
            *final(self) == *old(self),
    {
        Err(TransportError::UnsupportedTransport)
    }
}

/// Whether fetching into a buffer may end in `r`: the body is appended, and
/// only where there is a response.
pub open spec fn fetched_into<T: OriginTransport>(
    pre: T,
    request: RequestView,
    before: Seq<u8>,
    r: Result<OriginResponseHead, TransportError>,
    after: Seq<u8>,
    post: T,
) -> bool {
    exists|reply: Result<OriginResponse, TransportError>|
        #[trigger] T::fetches(pre, request, reply, post) && match reply {
            Ok(response) => {
                &&& r is Ok
                &&& r->Ok_0.status == response.status
                &&& r->Ok_0.headers == response.headers
                &&& r->Ok_0.body_len == response.body@.len()
                &&& r->Ok_0.dane_decision == response.dane_decision
                &&& r->Ok_0.tls_inspection == response.tls_inspection
                &&& after == before + response.body@
            },
            Err(error) => r == Err::<OriginResponseHead, _>(error) && after == before,
        }
}

/// Fetches a response and appends its body to a buffer.
pub fn fetch_to_writer<T: OriginTransport>(
    transport: &mut T,
    request: &OriginRequest,
    body: &mut Vec<u8>,
) -> (r: Result<OriginResponseHead, TransportError>)
    ensures
        fetched_into(
            *old(transport),
            request@,
            old(body)@,
            r,
            final(body)@,
            *final(transport),
        ),
{
    let ghost pre = *transport;
    let reply = transport.fetch(request);
    assert(T::fetches(pre, request@, reply, *transport));
    match reply {
        Ok(response) => {
            let mut copied = crate::dns::copy_bytes(&response.body);
            body.append(&mut copied);
            Ok(response.into_head())
        },
        Err(error) => Err(error),
    }
}

/// A transport that fetches nothing.
#[derive(Clone, Copy, Debug, PartialEq, Eq)]
pub struct FailClosedTransport;

impl OriginTransport for FailClosedTransport {
    open spec fn fetches(
        pre: Self,
        request: RequestView,
        reply: Result<OriginResponse, TransportError>,
        post: Self,
    ) -> bool {
        post == pre && reply == Err::<OriginResponse, _>(TransportError::UnsupportedTransport)
    }

    fn fetch(&mut self, request: &OriginRequest) -> (r: Result<OriginResponse, TransportError>) {
        Err(TransportError::UnsupportedTransport)
    }
}

/// Connections and offers, and the limits that hold for every origin. Times are
/// in milliseconds.
#[derive(Clone, Debug, PartialEq, Eq)]
pub struct TcpHttpTransport {
    pub connect_timeout_ms: u64,
    pub read_timeout_ms: u64,
    pub limits: TransportLimits,
    pub http11_pool: ConnectionPool,
    pub alt_svc: AltSvcTable,
}

impl Default for TcpHttpTransport {
    fn default() -> (r: Self)
        ensures
            r.connect_timeout_ms == 10_000,
            r.read_timeout_ms == 30_000,
            r.limits.max_request_body_bytes == 1024 * 1024,
            r.limits.max_response_header_bytes == 64 * 1024,
            r.limits.max_response_body_bytes == 8 * 1024 * 1024,
            r.http11_pool@.len() == 0,
            r.alt_svc@.len() == 0,
    {
        TcpHttpTransport::new(10_000, 30_000, TransportLimits::default())
    }
}

/// A request over HTTP/1.1: the key of its connection, and the connection that
/// was kept under it.
#[derive(Clone, Debug, PartialEq, Eq)]
pub struct Http11Start {
    pub key: Http11PoolKey,
    pub pooled: Option<PooledHttp11Connection>,
}

pub open spec fn connection_view(connection: Option<PooledHttp11Connection>) -> Option<
    ConnectionView,
> {
    match connection {
        Some(connection) => Some(connection@),
        None => None,
    }
}

/// The connection that is kept for a request.
pub open spec fn pooled_for(slots: Seq<SlotView>, request: RequestView) -> Option<ConnectionView> {
    let at = pool::oldest(slots, pool::key_of(request));
    if at < slots.len() {
        Some(slots[at as int].connection)
    } else {
        None
    }
}

/// The pool after a response over a connection: it is kept where it can carry
/// another.
pub open spec fn pool_after(slots: Seq<SlotView>, slot: SlotView, reusable: bool) -> Seq<SlotView> {
    if reusable {
        pool::put(slots, slot)
    } else {
        slots
    }
}

/// The head of a response that came over a connection.
pub open spec fn head_over(
    head: OriginResponseHead,
    read: OriginResponseHead,
    connection: ConnectionView,
) -> bool {
    &&& head.status == read.status
    &&& head.headers == read.headers
    &&& head.body_len == read.body_len
    &&& head.dane_decision == connection.dane_decision
    &&& types::inspection_view(head.tls_inspection) == connection.tls_inspection
}

impl TcpHttpTransport {
    pub fn new(connect_timeout_ms: u64, read_timeout_ms: u64, limits: TransportLimits) -> (r: Self)
        ensures
            r.connect_timeout_ms == connect_timeout_ms,
            r.read_timeout_ms == read_timeout_ms,
            r.limits == limits,
            r.http11_pool@.len() == 0,
            r.alt_svc@.len() == 0,
    {
        TcpHttpTransport {
            connect_timeout_ms,
            read_timeout_ms,
            limits,
            http11_pool: ConnectionPool::new(),
            alt_svc: AltSvcTable::new(),
        }
    }

    pub fn limits(&self) -> (r: TransportLimits)
        ensures
            r == self.limits,
    {
        self.limits
    }

    /// The request as it goes out, over the protocol on offer, and its way.
    pub fn plan_fetch(&self, request: &OriginRequest, now: u64) -> (r: (
        OriginRequest,
        Result<FetchRoute, TransportError>,
    ))
        ensures
            r.0@ == (RequestView {
                protocol: altsvc::promoted(self.alt_svc@, request@, now),
                ..request@
            }),
            r.1 == route_of(r.0@),
    {
        let promoted = self.alt_svc.promoted_request(request, now);
        let route = fetch_route(&promoted);
        (promoted, route)
    }

    /// Starts a request over HTTP/1.1: takes the connection that is kept for it.
    pub fn begin_http11(&mut self, request: &OriginRequest) -> (r: Result<
        Http11Start,
        TransportError,
    >)
        ensures
            final(self).connect_timeout_ms == old(self).connect_timeout_ms,
            final(self).read_timeout_ms == old(self).read_timeout_ms,
            final(self).limits == old(self).limits,
            final(self).alt_svc == old(self).alt_svc,
            match r {
                Ok(start) => {
                    &&& request::request_fault(request@, old(self).limits) is None
                    &&& start.key@ == pool::key_of(request@)
                    &&& connection_view(start.pooled) == pooled_for(
                        old(self).http11_pool@,
                        request@,
                    )
                    &&& final(self).http11_pool@ == pool::taken(
                        old(self).http11_pool@,
                        pool::key_of(request@),
                    )
                },
                Err(error) => {
                    &&& request::request_fault(request@, old(self).limits) == Some(error)
                    &&& final(self).http11_pool@ == old(self).http11_pool@
                },
            },
    {
        match request::validate_request(request, self.limits) {
            Ok(_) => {},
            Err(error) => {
                return Err(error);
            },
        }
        let key = pool::http11_pool_key(request);
        proof {
            pool::lemma_oldest(self.http11_pool@, key@);
        }
        let pooled = self.http11_pool.take_http11_connection(&key);
        Ok(Http11Start { key, pooled })
    }

    /// Ends a request over HTTP/1.1 whose response was read from `connection`:
    /// the connection is kept where it can carry another. The second part of
    /// the result is the connection that had to go for it.
    pub fn finish_http11(
        &mut self,
        key: Http11PoolKey,
        connection: PooledHttp11Connection,
        read: OriginResponseHead,
        reusable: bool,
    ) -> (r: (OriginResponseHead, Option<PooledHttp11Connection>))
        ensures
            final(self).connect_timeout_ms == old(self).connect_timeout_ms,
            final(self).read_timeout_ms == old(self).read_timeout_ms,
            final(self).limits == old(self).limits,
            final(self).alt_svc == old(self).alt_svc,
            head_over(r.0, read, connection@),
            final(self).http11_pool@ == pool_after(
                old(self).http11_pool@,
                SlotView { key: key@, connection: connection@ },
                reusable,
            ),
            match r.1 {
                Some(gone) => {
                    &&& reusable
                    &&& pool::kept(old(self).http11_pool@, key@) >= pool::MAX_HTTP11_POOL_PER_ORIGIN
                    &&& gone@ == old(self).http11_pool@[pool::oldest(
                        old(self).http11_pool@,
                        key@,
                    ) as int].connection
                },
                None => !reusable || pool::kept(old(self).http11_pool@, key@)
                    < pool::MAX_HTTP11_POOL_PER_ORIGIN,
            },
    {
        let head = OriginResponseHead {
            status: read.status,
            headers: read.headers,
            body_len: read.body_len,
            dane_decision: connection.dane_decision,
            tls_inspection: types::copy_inspection(&connection.tls_inspection),
        };
        if reusable {
            let gone = self.http11_pool.put_http11_connection(key, connection);
            (head, gone)
        } else {
            (head, None)
        }
    }

    /// Remembers what a response offers.
    pub fn record_alt_svc(&mut self, request: &OriginRequest, headers: &Vec<Header>, now: u64)
        ensures
            final(self).connect_timeout_ms == old(self).connect_timeout_ms,
            final(self).read_timeout_ms == old(self).read_timeout_ms,
            final(self).limits == old(self).limits,
            final(self).http11_pool == old(self).http11_pool,
            final(self).alt_svc@ == altsvc::recorded(
                old(self).alt_svc@,
                request@,
                types::header_views(headers@),
                now,
            ),
    {
        self.alt_svc.record_alt_svc(request, headers, now);
    }

    /// The request that opens a tunnel, under its plain scheme, and whether it
    /// goes over TLS.
    pub fn plan_tunnel(&self, request: &OriginRequest) -> (r: Result<
        (OriginRequest, bool),
        TransportError,
    >)
        ensures
            match r {
                Ok((planned, tls)) => {
                    &&& request::tunnel_fault(request@, self.limits) is None
                    &&& request::tunnel_scheme(request@.scheme) is Some
                    &&& planned@ == (RequestView {
                        scheme: request::tunnel_scheme(request@.scheme)->0,
                        protocol: OriginProtocol::Http11,
                        ..request@
                    })
                    &&& tls == (planned@.scheme == "https"@)
                },
                Err(error) => match request::tunnel_fault(request@, self.limits) {
                    Some(fault) => error == fault,
                    None => request::tunnel_scheme(request@.scheme) is None && error
                        == TransportError::UnsupportedScheme,
                },
            },
    {
        match request::validate_tunnel_request(request, self.limits) {
            Ok(_) => {},
            Err(error) => {
                return Err(error);
            },
        }
        match request::tunnel_origin_scheme(request.scheme.as_str()) {
            Ok(scheme) => {
                let tls = text::same_text(scheme.as_str(), "https");
                let mut planned = request.copy();
                planned.scheme = scheme;
                planned.protocol = OriginProtocol::Http11;
                Ok((planned, tls))
            },
            Err(error) => Err(error),
        }
    }
}

/// Why no connection could be made: what the last address failed with, if there
/// was an address.
pub fn connect_failure(last_error: Option<String>) -> (r: TransportError)
    ensures
        match (r, last_error) {
            (TransportError::Io(told), Some(error)) => told == error,
            (TransportError::Io(told), None) => told@ == "no resolved socket addresses"@,
            _ => false,
        },
{
    match last_error {
        Some(error) => TransportError::Io(error),
        None => TransportError::Io("no resolved socket addresses".to_owned()),
    }
}

/// Reads the head of the answer that opens a tunnel, to its end and no
/// further.
#[derive(Clone, Debug, PartialEq, Eq)]
pub struct TunnelHeadReader {
    pub head: Vec<u8>,
    pub limit: usize,
}

impl TunnelHeadReader {
    pub fn new(limit: usize) -> (r: Result<Self, TransportError>)
        ensures
            match r {
                Ok(reader) => limit > 0 && reader.head@.len() == 0 && reader.limit == limit,
                Err(error) => limit == 0 && error == TransportError::ResponseTooLarge,
            },
    {
        if limit == 0 {
            Err(TransportError::ResponseTooLarge)
        } else {
            Ok(TunnelHeadReader { head: Vec::new(), limit })
        }
    }

    /// Takes the next byte; none means that the connection has ended. Gives
    /// whether the head is complete.
    pub fn feed(&mut self, byte: Option<u8>) -> (r: Result<bool, TransportError>)
        ensures
            final(self).limit == old(self).limit,
            match byte {
                None => r == Err::<bool, _>(TransportError::MalformedResponse) && final(self).head@
                    == old(self).head@,
                Some(byte) => {
                    let head = old(self).head@.push(byte);
                    &&& final(self).head@ == head
                    &&& r == (if response::ends_head(head) {
                        Ok(true)
                    } else if head.len() >= old(self).limit {
                        Err(TransportError::ResponseTooLarge)
                    } else {
                        Ok(false)
                    })
                },
            },
    {
        match byte {
            None => Err(TransportError::MalformedResponse),
            Some(byte) => {
                self.head.push(byte);
                let n: usize = self.head.len();
                if n >= 4 && self.head[n - 4] == 13 && self.head[n - 3] == 10 && self.head[n - 2]
                    == 13 && self.head[n - 1] == 10 {
                    Ok(true)
                } else if n >= self.limit {
                    Err(TransportError::ResponseTooLarge)
                } else {
                    Ok(false)
                }
            },
        }
    }
}

/// A byte that a field value in text has: printable ASCII, or a tab.
pub open spec fn is_visible(byte: u8) -> bool {
    (byte >= 32 && byte < 127) || byte == 9
}

/// A field value as text, where it is all printable ASCII.
pub open spec fn field_text(value: Seq<u8>) -> Option<Seq<char>> {
    if forall|i: int| 0 <= i < value.len() ==> is_visible(#[trigger] value[i]) {
        Some(Seq::new(value.len(), |i: int| value[i] as char))
    } else {
        None
    }
}

fn visible_text(value: &Vec<u8>) -> (r: Option<String>)
    ensures
        match r {
            Some(text) => field_text(value@) == Some(text@),
            None => field_text(value@) is None,
        },
{
    let mut out = String::new();
    let mut i: usize = 0;
    assert(out@ =~= Seq::new(0, |j: int| value@[j] as char));
    while i < value.len()
        invariant
            i <= value@.len(),
            forall|j: int| 0 <= j < i ==> is_visible(#[trigger] value@[j]),
            out@ == Seq::new(i as nat, |j: int| value@[j] as char),
        decreases value@.len() - i,
    {
        let byte: u8 = value[i];
        if !((byte >= 32 && byte < 127) || byte == 9) {
            return None;
        }
        out.push(byte as char);
        assert(out@ =~= Seq::new((i + 1) as nat, |j: int| value@[j] as char));
        i = i + 1;
    }
    Some(out)
}

/// A response field as it comes: a name, and the bytes of a value.
pub type RawField = (String, Vec<u8>);

pub type RawFieldView = (Seq<char>, Seq<u8>);

pub open spec fn raw_views(fields: Seq<RawField>) -> Seq<RawFieldView> {
    Seq::new(fields.len(), |i: int| (fields[i].0@, fields[i].1@))
}

/// The first `n` response fields as headers; none if a value is no text.
pub open spec fn fields_as_headers(fields: Seq<RawFieldView>, n: nat) -> Option<Seq<HeaderView>>
    decreases n,
{
    if n == 0 {
        Some(Seq::empty())
    } else {
        match (fields_as_headers(fields, (n - 1) as nat), field_text(fields[n - 1].1)) {
            (Some(headers), Some(value)) => Some(headers.push((fields[n - 1].0, value))),
            _ => None,
        }
    }
}

proof fn lemma_fields_stay_refused(fields: Seq<RawFieldView>, n: nat, m: nat)
    requires
        n <= m,
        fields_as_headers(fields, n) is None,
    ensures
        fields_as_headers(fields, m) is None,
    decreases m,
{
    if n < m {
        lemma_fields_stay_refused(fields, n, (m - 1) as nat);
    }
}

pub fn http2_response_headers(fields: &Vec<RawField>) -> (r: Result<Vec<Header>, TransportError>)
    ensures
        match r {
            Ok(headers) => fields_as_headers(raw_views(fields@), fields@.len()) == Some(
                types::header_views(headers@),
            ),
            Err(error) => fields_as_headers(raw_views(fields@), fields@.len()) is None && error
                == TransportError::MalformedResponse,
        },
{
    let ghost all = raw_views(fields@);
    let mut headers: Vec<Header> = Vec::new();
    let mut i: usize = 0;
    assert(types::header_views(headers@) =~= Seq::empty());
    while i < fields.len()
        invariant
            i <= fields@.len(),
            all == raw_views(fields@),
            fields_as_headers(all, i as nat) == Some(types::header_views(headers@)),
        decreases fields@.len() - i,
    {
        assert(all[i as int] == (fields@[i as int].0@, fields@[i as int].1@));
        match visible_text(&fields[i].1) {
            Some(value) => {
                let ghost before = types::header_views(headers@);
                let name = fields[i].0.clone();
                let ghost seen = (name@, value@);
                headers.push((name, value));
                assert(types::header_views(headers@) =~= before.push(seen));
            },
            None => {
                proof {
                    lemma_fields_stay_refused(all, (i + 1) as nat, fields@.len());
                }
                return Err(TransportError::MalformedResponse);
            },
        }
        i = i + 1;
    }
    Ok(headers)
}

/// What a request over HTTP/2 or HTTP/3 waits for.
#[derive(Clone, Copy, Debug, PartialEq, Eq, Structural)]
pub enum MuxStage {
    Connect,
    Setup,
    SendRequest,
    SendBody,
    Finish,
    ReceiveHead,
    ReceiveBody,
    Done,
}

/// What happens to a request over HTTP/2 or HTTP/3.
#[derive(Clone, Debug, PartialEq, Eq)]
pub enum MuxEvent {
    /// The connection stands; whether it speaks the protocol.
    Connected(bool),
    Completed,
    TimedOut,
    Failed(String),
    Head(u16, Vec<RawField>),
    /// A piece of the body, by its length.
    Chunk(usize),
    End,
}

/// A request over HTTP/2 or HTTP/3.
#[derive(Clone, Debug, PartialEq, Eq)]
pub struct MuxExchange {
    pub protocol: OriginProtocol,
    pub method: String,
    pub has_body: bool,
    pub limit: usize,
    pub stage: MuxStage,
    pub status: u16,
    pub headers: Vec<Header>,
    pub expected: Option<usize>,
    pub total: usize,
}

pub struct MuxView {
    pub protocol: OriginProtocol,
    pub method: Seq<char>,
    pub has_body: bool,
    pub limit: usize,
    pub stage: MuxStage,
    pub status: u16,
    pub headers: Seq<HeaderView>,
    pub expected: Option<usize>,
    pub total: usize,
}

impl View for MuxExchange {
    type V = MuxView;

    open spec fn view(&self) -> MuxView {
        MuxView {
            protocol: self.protocol,
            method: self.method@,
            has_body: self.has_body,
            limit: self.limit,
            stage: self.stage,
            status: self.status,
            headers: types::header_views(self.headers@),
            expected: self.expected,
            total: self.total,
        }
    }
}

/// Why a request over HTTP/2 or HTTP/3 fails.
pub enum MuxFault {
    TimedOut,
    Failed(Seq<char>),
    Refused(TransportError),
}

pub open spec fn stage_text(stage: MuxStage) -> Seq<char> {
    match stage {
        MuxStage::Connect => "connect"@,
        MuxStage::Setup => "connection setup"@,
        MuxStage::SendRequest => "send request"@,
        MuxStage::SendBody => "send request body"@,
        MuxStage::Finish => "finish request"@,
        MuxStage::ReceiveHead => "receive response headers"@,
        MuxStage::ReceiveBody => "receive response body"@,
        MuxStage::Done => "done"@,
    }
}

fn stage_name(stage: MuxStage) -> (r: &'static str)
    ensures
        r@ == stage_text(stage),
{
    match stage {
        MuxStage::Connect => "connect",
        MuxStage::Setup => "connection setup",
        MuxStage::SendRequest => "send request",
        MuxStage::SendBody => "send request body",
        MuxStage::Finish => "finish request",
        MuxStage::ReceiveHead => "receive response headers",
        MuxStage::ReceiveBody => "receive response body",
        MuxStage::Done => "done",
    }
}

/// Whether an error reports a fault at a stage. HTTP/2 has one time limit for
/// the whole request, HTTP/3 one for each stage.
pub open spec fn reports(
    error: TransportError,
    fault: MuxFault,
    protocol: OriginProtocol,
    stage: MuxStage,
) -> bool {
    match fault {
        MuxFault::Refused(reason) => error == reason,
        MuxFault::TimedOut => error matches TransportError::Io(text) && text@ == (if protocol
            == OriginProtocol::Http3 {
            "HTTP/3 "@ + stage_text(stage) + " timed out"@
        } else {
            "HTTP/2 origin request timed out"@
        }),
        MuxFault::Failed(reason) => if protocol == OriginProtocol::Http3 {
            if stage == MuxStage::Connect {
                error matches TransportError::Quic(text) && text@ == reason
            } else {
                error matches TransportError::Http3(text) && text@ == reason
            }
        } else if stage == MuxStage::Connect {
            error matches TransportError::Io(text) && text@ == reason
        } else {
            error matches TransportError::Http2(text) && text@ == reason
        },
    }
}

/// The stage after the request is sent.
pub open spec fn after_sending(protocol: OriginProtocol) -> MuxStage {
    if protocol == OriginProtocol::Http3 {
        MuxStage::Finish
    } else {
        MuxStage::ReceiveHead
    }
}

/// The exchange once the body is complete: it must be as long as announced.
pub open spec fn body_ended(exchange: MuxView) -> Result<MuxView, MuxFault> {
    if exchange.expected is Some && exchange.expected->0 != exchange.total {
        Err(MuxFault::Refused(TransportError::MalformedResponse))
    } else {
        Ok(MuxView { stage: MuxStage::Done, ..exchange })
    }
}

/// The exchange once the head has come: no transfer coding is in order here.
pub open spec fn head_taken(exchange: MuxView, status: u16, fields: Seq<RawFieldView>) -> Result<
    MuxView,
    MuxFault,
> {
    match fields_as_headers(fields, fields.len()) {
        None => Err(MuxFault::Refused(TransportError::MalformedResponse)),
        Some(headers) => match (response::coded(headers), response::length_of(
            headers,
            headers.len(),
        )) {
            (Ok(None), Ok(length)) => {
                let known = MuxView {
                    stage: MuxStage::ReceiveBody,
                    status,
                    headers,
                    expected: match length {
                        Some(length) => Some(length as usize),
                        None => None,
                    },
                    total: 0,
                    ..exchange
                };
                if response::has_no_body(exchange.method, status) {
                    body_ended(known)
                } else {
                    Ok(known)
                }
            },
            _ => Err(MuxFault::Refused(TransportError::MalformedResponse)),
        },
    }
}

/// What an event makes of an exchange; one that is not waited for changes
/// nothing.
pub open spec fn mux_next(exchange: MuxView, event: MuxEvent) -> Result<MuxView, MuxFault> {
    match (exchange.stage, event) {
        (MuxStage::Done, _) => Ok(exchange),
        (_, MuxEvent::TimedOut) => Err(MuxFault::TimedOut),
        (_, MuxEvent::Failed(reason)) => Err(MuxFault::Failed(reason@)),
        (MuxStage::Connect, MuxEvent::Connected(speaks)) => if speaks {
            Ok(MuxView { stage: MuxStage::Setup, ..exchange })
        } else {
            Err(MuxFault::Refused(TransportError::UnsupportedTransport))
        },
        (MuxStage::Setup, MuxEvent::Completed) => Ok(
            MuxView { stage: MuxStage::SendRequest, ..exchange },
        ),
        (MuxStage::SendRequest, MuxEvent::Completed) => Ok(
            MuxView {
                stage: if exchange.has_body {
                    MuxStage::SendBody
                } else {
                    after_sending(exchange.protocol)
                },
                ..exchange
            },
        ),
        (MuxStage::SendBody, MuxEvent::Completed) => Ok(
            MuxView { stage: after_sending(exchange.protocol), ..exchange },
        ),
        (MuxStage::Finish, MuxEvent::Completed) => Ok(
            MuxView { stage: MuxStage::ReceiveHead, ..exchange },
        ),
        (MuxStage::ReceiveHead, MuxEvent::Head(status, fields)) => head_taken(
            exchange,
            status,
            raw_views(fields@),
        ),
        (MuxStage::ReceiveBody, MuxEvent::Chunk(length)) => match response::longer_body(
            exchange.total as int,
            length as int,
            exchange.limit as int,
        ) {
            Ok(total) => Ok(MuxView { total, ..exchange }),
            Err(error) => Err(MuxFault::Refused(error)),
        },
        (MuxStage::ReceiveBody, MuxEvent::End) => body_ended(exchange),
        _ => Ok(exchange),
    }
}

impl MuxExchange {
    /// A request over HTTP/2 or HTTP/3, if it is valid.
    pub fn new(request: &OriginRequest, limits: TransportLimits) -> (r: Result<
        Self,
        TransportError,
    >)
        ensures
            match r {
                Ok(exchange) => {
                    &&& request::request_fault(request@, limits) is None
                    &&& exchange@ == (MuxView {
                        protocol: request.protocol,
                        method: request.method@,
                        has_body: request.body@.len() > 0,
                        limit: limits.max_response_body_bytes,
                        stage: MuxStage::Connect,
                        status: 0,
                        headers: Seq::empty(),
                        expected: None,
                        total: 0,
                    })
                },
                Err(error) => request::request_fault(request@, limits) == Some(error),
            },
    {
        match request::validate_request(request, limits) {
            Ok(_) => {},
            Err(error) => {
                return Err(error);
            },
        }
        let exchange = MuxExchange {
            protocol: request.protocol,
            method: request.method.clone(),
            has_body: request.body.len() > 0,
            limit: limits.max_response_body_bytes,
            stage: MuxStage::Connect,
            status: 0,
            headers: Vec::new(),
            expected: None,
            total: 0,
        };
        assert(exchange@.headers =~= Seq::empty());
        Ok(exchange)
    }

    fn timed_out(&self) -> (r: TransportError)
        ensures
            reports(r, MuxFault::TimedOut, self.protocol, self.stage),
    {
        if self.protocol == OriginProtocol::Http3 {
            let mut text = "HTTP/3 ".to_owned();
            text.append(stage_name(self.stage));
            text.append(" timed out");
            TransportError::Io(text)
        } else {
            TransportError::Io("HTTP/2 origin request timed out".to_owned())
        }
    }

    fn failed(&self, reason: String) -> (r: TransportError)
        ensures
            reports(r, MuxFault::Failed(reason@), self.protocol, self.stage),
    {
        if self.protocol == OriginProtocol::Http3 {
            if self.stage == MuxStage::Connect {
                TransportError::Quic(reason)
            } else {
                TransportError::Http3(reason)
            }
        } else if self.stage == MuxStage::Connect {
            TransportError::Io(reason)
        } else {
            TransportError::Http2(reason)
        }
    }

    fn sent(&mut self)
        ensures
            final(self)@ == (MuxView { stage: after_sending(old(self).protocol), ..old(self)@ }),
    {
        self.stage = if self.protocol == OriginProtocol::Http3 {
            MuxStage::Finish
        } else {
            MuxStage::ReceiveHead
        };
    }

    fn end_body(&mut self) -> (r: Result<(), TransportError>)
        ensures
            match body_ended(old(self)@) {
                Ok(next) => r is Ok && final(self)@ == next,
                Err(fault) => r is Err && reports(
                    r->Err_0,
                    fault,
                    old(self).protocol,
                    old(self).stage,
                ) && final(self)@ == old(self)@,
            },
    {
        if let Some(expected) = self.expected {
            if expected != self.total {
                return Err(TransportError::MalformedResponse);
            }
        }
        self.stage = MuxStage::Done;
        Ok(())
    }

    fn take_head(&mut self, status: u16, fields: Vec<RawField>) -> (r: Result<(), TransportError>)
        ensures
            match head_taken(old(self)@, status, raw_views(fields@)) {
                Ok(next) => r is Ok && final(self)@ == next,
                Err(fault) => r is Err && reports(
                    r->Err_0,
                    fault,
                    old(self).protocol,
                    old(self).stage,
                ) && final(self)@ == old(self)@,
            },
    {
        assert(raw_views(fields@).len() == fields@.len());
        let headers = match http2_response_headers(&fields) {
            Ok(headers) => headers,
            Err(error) => {
                return Err(error);
            },
        };
        assert(types::header_views(headers@).len() == headers@.len());
        proof {
            lemma_refusals_are_malformed(types::header_views(headers@), headers@.len());
        }
        match response::transfer_encoding(&headers) {
            Ok(None) => {},
            _ => {
                return Err(TransportError::MalformedResponse);
            },
        }
        let expected = match response::content_length(&headers) {
            Ok(expected) => expected,
            Err(error) => {
                return Err(error);
            },
        };
        let no_body = response::response_has_no_body(self.method.as_str(), status);
        if no_body && expected.is_some() && expected != Some(0) {
            return Err(TransportError::MalformedResponse);
        }
        self.status = status;
        self.headers = headers;
        self.expected = expected;
        self.total = 0;
        self.stage = MuxStage::ReceiveBody;
        if no_body {
            self.end_body()
        } else {
            Ok(())
        }
    }

    /// Takes what happened. The stage says what to do next; an error leaves the
    /// exchange as it was.
    pub fn on_event(&mut self, event: MuxEvent) -> (r: Result<(), TransportError>)
        ensures
            match mux_next(old(self)@, event) {
                Ok(next) => r is Ok && final(self)@ == next,
                Err(fault) => r is Err && reports(
                    r->Err_0,
                    fault,
                    old(self).protocol,
                    old(self).stage,
                ) && final(self)@ == old(self)@,
            },
    {
        if self.stage == MuxStage::Done {
            return Ok(());
        }
        match event {
            MuxEvent::TimedOut => {
                return Err(self.timed_out());
            },
            MuxEvent::Failed(reason) => {
                return Err(self.failed(reason));
            },
            MuxEvent::Connected(speaks) => {
                if self.stage == MuxStage::Connect {
                    if !speaks {
                        return Err(TransportError::UnsupportedTransport);
                    }
                    self.stage = MuxStage::Setup;
                }
            },
            MuxEvent::Completed => match self.stage {
                MuxStage::Setup => {
                    self.stage = MuxStage::SendRequest;
                },
                MuxStage::SendRequest => {
                    if self.has_body {
                        self.stage = MuxStage::SendBody;
                    } else {
                        self.sent();
                    }
                },
                MuxStage::SendBody => {
                    self.sent();
                },
                MuxStage::Finish => {
                    self.stage = MuxStage::ReceiveHead;
                },
                _ => {},
            },
            MuxEvent::Head(status, fields) => {
                if self.stage == MuxStage::ReceiveHead {
                    return self.take_head(status, fields);
                }
            },
            MuxEvent::Chunk(length) => {
                if self.stage == MuxStage::ReceiveBody {
                    match response::checked_body_len(self.total, length, self.limit) {
                        Ok(total) => {
                            self.total = total;
                        },
                        Err(error) => {
                            return Err(error);
                        },
                    }
                }
            },
            MuxEvent::End => {
                if self.stage == MuxStage::ReceiveBody {
                    return self.end_body();
                }
            },
        }
        Ok(())
    }

    /// The head of a response that is complete, with how the certificate was
    /// accepted.
    pub fn finish(
        self,
        dane_decision: DaneDecision,
        tls_inspection: Option<TlsCertificateInspection>,
    ) -> (r: Option<OriginResponseHead>)
        ensures
            match r {
                Some(head) => {
                    &&& self.stage == MuxStage::Done
                    &&& head.status == self.status
                    &&& head.headers == self.headers
                    &&& head.body_len == self.total
                    &&& head.dane_decision == dane_decision
                    &&& head.tls_inspection == tls_inspection
                },
                None => self.stage != MuxStage::Done,
            },
    {
        if self.stage == MuxStage::Done {
            Some(
                OriginResponseHead {
                    status: self.status,
                    headers: self.headers,
                    body_len: self.total,
                    dane_decision,
                    tls_inspection,
                },
            )
        } else {
            None
        }
    }
}

proof fn lemma_refusals_are_malformed(headers: Seq<HeaderView>, n: nat)
    ensures
        response::length_of(headers, n) is Err ==> response::length_of(headers, n) == Err::<
            Option<nat>,
            TransportError,
        >(TransportError::MalformedResponse),
    decreases n,
{
    if n > 0 {
        lemma_refusals_are_malformed(headers, (n - 1) as nat);
    }
}

/// What holds of every exchange that was reached from a fresh one.
pub open spec fn mux_wf(exchange: MuxView) -> bool {
    &&& exchange.total <= exchange.limit
    &&& exchange.stage == MuxStage::Done && exchange.expected is Some ==> exchange.expected->0
        == exchange.total
}

/// No body outgrows the limit, and a complete one is as long as announced.
pub proof fn law_mux_body_is_as_announced(exchange: MuxView, event: MuxEvent)
    requires
        mux_wf(exchange),
        mux_next(exchange, event) is Ok,
    ensures
        mux_wf(mux_next(exchange, event)->Ok_0),
{
}

/// Only HTTP/1.1 goes in the clear.
pub proof fn law_newer_protocols_need_tls(request: RequestView)
    requires
        route_of(request) is Ok,
        request.protocol != OriginProtocol::Http11,
    ensures
        text::lower(request.scheme) == "https"@,
{
}

/// The fields of a response become its headers one for one, each under its name
/// and with its value as it came; there are none only where a value is no printable
/// text.
pub proof fn law_response_fields_are_kept(fields: Seq<RawFieldView>, n: nat)
    requires
        n <= fields.len(),
    ensures
        fields_as_headers(fields, n) is Some <==> forall|i: int, k: int|
            0 <= i < n && 0 <= k < fields[i].1.len() ==> 32 <= #[trigger] fields[i].1[k] <= 126
                || fields[i].1[k] == 9,
        fields_as_headers(fields, n) matches Some(headers) ==> headers.len() == n && forall|i: int|
            0 <= i < n ==> (#[trigger] headers[i]).0 == fields[i].0 && headers[i].1.len()
                == fields[i].1.len() && forall|k: int|
                0 <= k < headers[i].1.len() ==> #[trigger] headers[i].1[k] as int
                    == fields[i].1[k] as int,
    decreases n,
{
    if n > 0 {
        law_response_fields_are_kept(fields, (n - 1) as nat);
        let value = fields[n - 1].1;
        if fields_as_headers(fields, n) is Some {
            assert forall|i: int, k: int| 0 <= i < n && 0 <= k < fields[i].1.len() implies 32
                <= #[trigger] fields[i].1[k] <= 126 || fields[i].1[k] == 9 by {
                if i == n - 1 {
                    assert(is_visible(value[k]));
                }
            }
        } else if forall|i: int, k: int|
            0 <= i < n && 0 <= k < fields[i].1.len() ==> 32 <= #[trigger] fields[i].1[k] <= 126
                || fields[i].1[k] == 9 {
            assert forall|k: int| 0 <= k < value.len() implies is_visible(#[trigger] value[k]) by {
                assert(32 <= fields[n - 1].1[k] <= 126 || fields[n - 1].1[k] == 9);
            }
            assert(false);
        }
    }
}

/// The way that a request takes: in the clear over HTTP/1.1 alone, and over TLS by
/// the protocol it asks for.
pub proof fn law_requests_go_their_way(request: RequestView)
    ensures
        route_of(request) == Ok::<_, TransportError>(FetchRoute::PlainHttp11)
            <==> text::same_ignoring_case(request.scheme, "http"@) && request.protocol
            == OriginProtocol::Http11,
        route_of(request) == Ok::<_, TransportError>(FetchRoute::TlsHttp11)
            <==> text::same_ignoring_case(request.scheme, "https"@) && request.protocol
            == OriginProtocol::Http11,
        route_of(request) == Ok::<_, TransportError>(FetchRoute::TlsHttp2)
            <==> text::same_ignoring_case(request.scheme, "https"@) && request.protocol
            == OriginProtocol::Http2,
        route_of(request) == Ok::<_, TransportError>(FetchRoute::TlsHttp3)
            <==> text::same_ignoring_case(request.scheme, "https"@) && request.protocol
            == OriginProtocol::Http3,
        route_of(request) == Err::<FetchRoute, _>(TransportError::UnsupportedScheme)
            <==> !text::same_ignoring_case(request.scheme, "http"@) && !text::same_ignoring_case(
            request.scheme,
            "https"@,
        ),
{
    reveal_strlit("http");
    reveal_strlit("https");
    assert(text::lower("http"@) =~= "http"@);
    assert(text::lower("https"@) =~= "https"@);
    assert("http"@.len() != "https"@.len());
}

/// A connection that can carry another request is the one that the next request to
/// the same place takes, if none is kept from before.
pub proof fn law_reusable_connection_is_used_again(
    slots: Seq<SlotView>,
    slot: SlotView,
    request: RequestView,
)
    requires
        slot.key == pool::key_of(request),
        pool::kept(slots, slot.key) == 0,
    ensures
        pooled_for(pool_after(slots, slot, true), request) == Some(slot.connection),
        pooled_for(pool_after(slots, slot, false), request) is None,
{
    pool::law_put_connection_is_taken_again(slots, slot);
    pool::lemma_oldest(slots, slot.key);
}

/// The head of a response is kept as it came, and nothing of the body counts yet.
pub proof fn law_mux_head_is_kept(exchange: MuxView, status: u16, fields: Seq<RawFieldView>)
    requires
        head_taken(exchange, status, fields) is Ok,
    ensures
        ({
            let next = head_taken(exchange, status, fields)->Ok_0;
            &&& next.status == status
            &&& fields_as_headers(fields, fields.len()) == Some(next.headers)
            &&& next.total == 0
            &&& next.protocol == exchange.protocol
            &&& next.method == exchange.method
            &&& next.stage == MuxStage::Done <==> response::has_no_body(exchange.method, status)
            &&& next.stage == MuxStage::Done || next.stage == MuxStage::ReceiveBody
        }),
{
}

/// Every piece of a body counts with its length, up to the limit and no further.
pub proof fn law_mux_pieces_add_up(exchange: MuxView, length: usize)
    requires
        exchange.stage == MuxStage::ReceiveBody,
    ensures
        exchange.total + length <= exchange.limit ==> mux_next(exchange, MuxEvent::Chunk(length))
            == Ok::<_, MuxFault>(MuxView { total: (exchange.total + length) as usize, ..exchange }),
        exchange.total + length > exchange.limit ==> mux_next(exchange, MuxEvent::Chunk(length))
            == Err::<MuxView, _>(MuxFault::Refused(TransportError::ResponseTooLarge)),
{
}

/// The body is sent exactly where there is one, and the answer is read only after
/// the whole request has been sent.
pub proof fn law_mux_sends_before_it_reads(exchange: MuxView, event: MuxEvent)
    requires
        mux_next(exchange, event) is Ok,
    ensures
        ({
            let next = mux_next(exchange, event)->Ok_0;
            &&& exchange.stage == MuxStage::SendRequest && event == MuxEvent::Completed ==> (
            next.stage == MuxStage::SendBody <==> exchange.has_body)
            &&& next.stage == MuxStage::ReceiveHead && exchange.stage != MuxStage::ReceiveHead
                ==> event == MuxEvent::Completed && (exchange.stage == MuxStage::Finish
                || exchange.stage == MuxStage::SendBody || (exchange.stage
                == MuxStage::SendRequest && !exchange.has_body))
            &&& next.stage == MuxStage::Done && exchange.stage != MuxStage::Done ==> exchange.stage
                == MuxStage::ReceiveHead || exchange.stage == MuxStage::ReceiveBody
        }),
{
}

} // verus!
