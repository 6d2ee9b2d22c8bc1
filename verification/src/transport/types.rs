//! What an origin is asked and what it answers.
use crate::dns;
use crate::text;
use vstd::prelude::*;
use vstd::string::*;

verus! {

#[derive(Clone, Copy, Debug, PartialEq, Eq, Structural)]
pub enum OriginProtocol {
    Http11,
    Http2,
    Http3,
}

/// Which certificates a domain may show.
#[derive(Clone, Copy, Debug, PartialEq, Eq, Structural)]
pub enum DomainTrustMode {
    HnsStrict,
    HnsCompatibility,
    IcannWebPki,
}

#[derive(Clone, Copy, Debug, PartialEq, Eq, Structural)]
pub enum TlsaUsage {
    PkixTa,
    PkixEe,
    DaneTa,
    DaneEe,
}

#[derive(Clone, Copy, Debug, PartialEq, Eq, Structural)]
pub enum TlsaSelector {
    FullCertificate,
    SubjectPublicKeyInfo,
}

#[derive(Clone, Copy, Debug, PartialEq, Eq, Structural)]
pub enum TlsaMatching {
    Exact,
    Sha256,
    Sha512,
}

/// What is known of a certificate chain under the public authorities.
#[derive(Clone, Copy, Debug, PartialEq, Eq, Structural)]
pub enum WebPkiStatus {
    Valid,
    Invalid,
    NotEvaluated,
}

/// How a certificate was accepted, or that it was not.
#[derive(Clone, Copy, Debug, PartialEq, Eq, Structural)]
pub enum DaneDecision {
    Matched(TlsaUsage),
    WebPkiFallback,
    NoTlsa,
    Failed,
}

/// A certificate association.
#[derive(Clone, Debug, PartialEq, Eq)]
pub struct TlsaRecord {
    pub usage: TlsaUsage,
    pub selector: TlsaSelector,
    pub matching: TlsaMatching,
    pub association_data: Vec<u8>,
}

pub struct TlsaView {
    pub usage: TlsaUsage,
    pub selector: TlsaSelector,
    pub matching: TlsaMatching,
    pub association_data: Seq<u8>,
}

impl View for TlsaRecord {
    type V = TlsaView;

    open spec fn view(&self) -> TlsaView {
        TlsaView {
            usage: self.usage,
            selector: self.selector,
            matching: self.matching,
            association_data: self.association_data@,
        }
    }
}

impl TlsaRecord {
    pub fn copy(&self) -> (r: TlsaRecord)
        ensures
            r@ == self@,
    {
        TlsaRecord {
            usage: self.usage,
            selector: self.selector,
            matching: self.matching,
            association_data: dns::copy_bytes(&self.association_data),
        }
    }
}

pub open spec fn tlsa_views(records: Seq<TlsaRecord>) -> Seq<TlsaView> {
    Seq::new(records.len(), |i: int| records[i]@)
}

/// How an origin's certificate is judged.
#[derive(Clone, Debug, PartialEq, Eq)]
pub struct TlsValidation {
    pub mode: DomainTrustMode,
    pub dnssec_secure: bool,
    pub tlsa_records: Vec<TlsaRecord>,
}

pub struct TlsView {
    pub mode: DomainTrustMode,
    pub dnssec_secure: bool,
    pub tlsa_records: Seq<TlsaView>,
}

impl View for TlsValidation {
    type V = TlsView;

    open spec fn view(&self) -> TlsView {
        TlsView {
            mode: self.mode,
            dnssec_secure: self.dnssec_secure,
            tlsa_records: tlsa_views(self.tlsa_records@),
        }
    }
}

impl Default for TlsValidation {
    fn default() -> (r: Self)
        ensures
            r@ == (TlsView {
                mode: DomainTrustMode::IcannWebPki,
                dnssec_secure: false,
                tlsa_records: Seq::empty(),
            }),
    {
        let r = TlsValidation {
            mode: DomainTrustMode::IcannWebPki,
            dnssec_secure: false,
            tlsa_records: Vec::new(),
        };
        assert(r@.tlsa_records =~= Seq::empty());
        r
    }
}

impl TlsValidation {
    pub fn hns_strict(dnssec_secure: bool, tlsa_records: Vec<TlsaRecord>) -> (r: Self)
        ensures
            r.mode == DomainTrustMode::HnsStrict,
            r.dnssec_secure == dnssec_secure,
            r.tlsa_records == tlsa_records,
    {
        TlsValidation { mode: DomainTrustMode::HnsStrict, dnssec_secure, tlsa_records }
    }

    pub fn hns_compatibility(dnssec_secure: bool, tlsa_records: Vec<TlsaRecord>) -> (r: Self)
        ensures
            r.mode == DomainTrustMode::HnsCompatibility,
            r.dnssec_secure == dnssec_secure,
            r.tlsa_records == tlsa_records,
    {
        TlsValidation { mode: DomainTrustMode::HnsCompatibility, dnssec_secure, tlsa_records }
    }

    pub fn copy(&self) -> (r: TlsValidation)
        ensures
            r@ == self@,
    {
        let mut tlsa_records: Vec<TlsaRecord> = Vec::new();
        let mut i: usize = 0;
        while i < self.tlsa_records.len()
            invariant
                i <= self.tlsa_records@.len(),
                tlsa_views(tlsa_records@) == tlsa_views(self.tlsa_records@).take(i as int),
            decreases self.tlsa_records@.len() - i,
        {
            let ghost before = tlsa_views(tlsa_records@);
            tlsa_records.push(self.tlsa_records[i].copy());
            assert(tlsa_views(tlsa_records@) =~= before.push(self.tlsa_records@[i as int]@));
            assert(tlsa_views(self.tlsa_records@).take(i + 1) =~= before.push(
                self.tlsa_records@[i as int]@,
            ));
            i = i + 1;
        }
        assert(tlsa_views(self.tlsa_records@).take(i as int) =~= tlsa_views(self.tlsa_records@));
        TlsValidation { mode: self.mode, dnssec_secure: self.dnssec_secure, tlsa_records }
    }
}

/// A header field: its name and its value.
pub type Header = (String, String);

pub type HeaderView = (Seq<char>, Seq<char>);

pub open spec fn header_views(headers: Seq<Header>) -> Seq<HeaderView> {
    Seq::new(headers.len(), |i: int| (headers[i].0@, headers[i].1@))
}

pub fn copy_headers(headers: &Vec<Header>) -> (r: Vec<Header>)
    ensures
        header_views(r@) == header_views(headers@),
{
    let mut out: Vec<Header> = Vec::new();
    let mut i: usize = 0;
    while i < headers.len()
        invariant
            i <= headers@.len(),
            header_views(out@) == header_views(headers@).take(i as int),
        decreases headers@.len() - i,
    {
        let ghost before = header_views(out@);
        let copied = (headers[i].0.clone(), headers[i].1.clone());
        let ghost seen = (copied.0@, copied.1@);
        out.push(copied);
        assert(header_views(out@) =~= before.push(seen));
        assert(header_views(headers@).take(i + 1) =~= before.push(header_views(headers@)[i as int]));
        i = i + 1;
    }
    assert(header_views(headers@).take(i as int) =~= header_views(headers@));
    out
}

/// A request for an origin. Where `connect_host` is given the connection goes
/// there.
#[derive(Clone, Debug, PartialEq, Eq)]
pub struct OriginRequest {
    pub method: String,
    pub scheme: String,
    pub host: String,
    pub connect_host: Option<String>,
    pub port: u16,
    pub path_and_query: String,
    pub protocol: OriginProtocol,
    pub tls: TlsValidation,
    pub headers: Vec<Header>,
    pub body: Vec<u8>,
}

pub struct RequestView {
    pub method: Seq<char>,
    pub scheme: Seq<char>,
    pub host: Seq<char>,
    pub connect_host: Option<Seq<char>>,
    pub port: u16,
    pub path_and_query: Seq<char>,
    pub protocol: OriginProtocol,
    pub tls: TlsView,
    pub headers: Seq<HeaderView>,
    pub body: Seq<u8>,
}

pub open spec fn text_view(text: Option<String>) -> Option<Seq<char>> {
    match text {
        Some(text) => Some(text@),
        None => None,
    }
}

impl View for OriginRequest {
    type V = RequestView;

    open spec fn view(&self) -> RequestView {
        RequestView {
            method: self.method@,
            scheme: self.scheme@,
            host: self.host@,
            connect_host: text_view(self.connect_host),
            port: self.port,
            path_and_query: self.path_and_query@,
            protocol: self.protocol,
            tls: self.tls@,
            headers: header_views(self.headers@),
            body: self.body@,
        }
    }
}

impl OriginRequest {
    pub fn copy(&self) -> (r: OriginRequest)
        ensures
            r@ == self@,
    {
        OriginRequest {
            method: self.method.clone(),
            scheme: self.scheme.clone(),
            host: self.host.clone(),
            connect_host: text::copy_option(&self.connect_host),
            port: self.port,
            path_and_query: self.path_and_query.clone(),
            protocol: self.protocol,
            tls: self.tls.copy(),
            headers: copy_headers(&self.headers),
            body: dns::copy_bytes(&self.body),
        }
    }
}

/// The host that a request connects to.
pub open spec fn connection_host(request: RequestView) -> Seq<char> {
    match request.connect_host {
        Some(host) => host,
        None => request.host,
    }
}

/// What an origin's certificates were.
#[derive(Clone, Debug, PartialEq, Eq)]
pub struct TlsCertificateInspection {
    pub end_entity_der: Vec<u8>,
    pub end_entity_spki_der: Vec<u8>,
    pub intermediate_der: Vec<Vec<u8>>,
    pub webpki_status: WebPkiStatus,
}

pub struct InspectionView {
    pub end_entity_der: Seq<u8>,
    pub end_entity_spki_der: Seq<u8>,
    pub intermediate_der: Seq<Seq<u8>>,
    pub webpki_status: WebPkiStatus,
}

pub open spec fn byte_views(v: Seq<Vec<u8>>) -> Seq<Seq<u8>> {
    Seq::new(v.len(), |i: int| v[i]@)
}

impl View for TlsCertificateInspection {
    type V = InspectionView;

    open spec fn view(&self) -> InspectionView {
        InspectionView {
            end_entity_der: self.end_entity_der@,
            end_entity_spki_der: self.end_entity_spki_der@,
            intermediate_der: byte_views(self.intermediate_der@),
            webpki_status: self.webpki_status,
        }
    }
}

impl TlsCertificateInspection {
    pub fn copy(&self) -> (r: TlsCertificateInspection)
        ensures
            r@ == self@,
    {
        let mut intermediate_der: Vec<Vec<u8>> = Vec::new();
        let mut i: usize = 0;
        while i < self.intermediate_der.len()
            invariant
                i <= self.intermediate_der@.len(),
                byte_views(intermediate_der@) == byte_views(self.intermediate_der@).take(i as int),
            decreases self.intermediate_der@.len() - i,
        {
            let ghost before = byte_views(intermediate_der@);
            intermediate_der.push(dns::copy_bytes(&self.intermediate_der[i]));
            assert(byte_views(intermediate_der@) =~= before.push(
                self.intermediate_der@[i as int]@,
            ));
            assert(byte_views(self.intermediate_der@).take(i + 1) =~= before.push(
                self.intermediate_der@[i as int]@,
            ));
            i = i + 1;
        }
        assert(byte_views(self.intermediate_der@).take(i as int) =~= byte_views(
            self.intermediate_der@,
        ));
        TlsCertificateInspection {
            end_entity_der: dns::copy_bytes(&self.end_entity_der),
            end_entity_spki_der: dns::copy_bytes(&self.end_entity_spki_der),
            intermediate_der,
            webpki_status: self.webpki_status,
        }
    }
}

pub open spec fn inspection_view(inspection: Option<TlsCertificateInspection>) -> Option<
    InspectionView,
> {
    match inspection {
        Some(inspection) => Some(inspection@),
        None => None,
    }
}

pub fn copy_inspection(inspection: &Option<TlsCertificateInspection>) -> (r: Option<
    TlsCertificateInspection,
>)
    ensures
        inspection_view(r) == inspection_view(*inspection),
{
    match inspection {
        Some(inspection) => Some(inspection.copy()),
        None => None,
    }
}

/// An origin's answer.
#[derive(Clone, Debug, PartialEq, Eq)]
pub struct OriginResponse {
    pub status: u16,
    pub headers: Vec<Header>,
    pub body: Vec<u8>,
    pub dane_decision: DaneDecision,
    pub tls_inspection: Option<TlsCertificateInspection>,
}

/// An origin's answer without its body.
#[derive(Clone, Debug, PartialEq, Eq)]
pub struct OriginResponseHead {
    pub status: u16,
    pub headers: Vec<Header>,
    pub body_len: usize,
    pub dane_decision: DaneDecision,
    pub tls_inspection: Option<TlsCertificateInspection>,
}

impl OriginResponse {
    pub fn into_head(self) -> (r: OriginResponseHead)
        ensures
            r.status == self.status,
            r.headers == self.headers,
            r.body_len == self.body@.len(),
            r.dane_decision == self.dane_decision,
            r.tls_inspection == self.tls_inspection,
    {
        OriginResponseHead {
            status: self.status,
            headers: self.headers,
            body_len: self.body.len(),
            dane_decision: self.dane_decision,
            tls_inspection: self.tls_inspection,
        }
    }
}

impl OriginResponseHead {
    /// The answer with its body.
    pub fn with_body(self, body: Vec<u8>) -> (r: OriginResponse)
        ensures
            r.status == self.status,
            r.headers == self.headers,
            r.body == body,
            r.dane_decision == self.dane_decision,
            r.tls_inspection == self.tls_inspection,
    {
        OriginResponse {
            status: self.status,
            headers: self.headers,
            body,
            dane_decision: self.dane_decision,
            tls_inspection: self.tls_inspection,
        }
    }
}

#[derive(Clone, Copy, Debug, PartialEq, Eq, Structural)]
pub struct TransportLimits {
    pub max_request_body_bytes: usize,
    pub max_response_header_bytes: usize,
    pub max_response_body_bytes: usize,
}

impl Default for TransportLimits {
    fn default() -> (r: Self)
        ensures
            r.max_request_body_bytes == 1024 * 1024,
            r.max_response_header_bytes == 64 * 1024,
            r.max_response_body_bytes == 8 * 1024 * 1024,
    {
        TransportLimits {
            max_request_body_bytes: 1024 * 1024,
            max_response_header_bytes: 64 * 1024,
            max_response_body_bytes: 8 * 1024 * 1024,
        }
    }
}

#[derive(Clone, Debug, PartialEq, Eq)]
pub enum TransportError {
    DaneFailed,
    UnsupportedTransport,
    UnsupportedScheme,
    UnsupportedTransferEncoding,
    UnsupportedUpgrade,
    Http2(String),
    Http3(String),
    Quic(String),
    Tls(String),
    InvalidRequest,
    RequestTooLarge,
    ResponseTooLarge,
    MalformedResponse,
    Io(String),
}

impl TransportError {
    pub open spec fn text(self) -> Seq<char> {
        match self {
            TransportError::DaneFailed => "DANE validation failed"@,
            TransportError::UnsupportedTransport => {
                "origin transport is not implemented for requested protocol"@
            },
            TransportError::UnsupportedScheme => "origin scheme is unsupported"@,
            TransportError::UnsupportedTransferEncoding => {
                "HTTP transfer encoding is unsupported"@
            },
            TransportError::UnsupportedUpgrade => "HTTP protocol upgrade is unsupported"@,
            TransportError::Http2(reason) => "origin HTTP/2 error: "@ + reason@,
            TransportError::Http3(reason) => "origin HTTP/3 error: "@ + reason@,
            TransportError::Quic(reason) => "origin QUIC error: "@ + reason@,
            TransportError::Tls(reason) => "origin TLS error: "@ + reason@,
            TransportError::InvalidRequest => "origin request is invalid"@,
            TransportError::RequestTooLarge => "origin request body exceeds configured limit"@,
            TransportError::ResponseTooLarge => "origin response exceeds configured limit"@,
            TransportError::MalformedResponse => "origin response is malformed"@,
            TransportError::Io(reason) => "origin I/O error: "@ + reason@,
        }
    }

    pub fn message(&self) -> (r: String)
        ensures
            r@ == self.text(),
    {
        match self {
            TransportError::DaneFailed => "DANE validation failed".to_owned(),
            TransportError::UnsupportedTransport => {
                "origin transport is not implemented for requested protocol".to_owned()
            },
            TransportError::UnsupportedScheme => "origin scheme is unsupported".to_owned(),
            TransportError::UnsupportedTransferEncoding => {
                "HTTP transfer encoding is unsupported".to_owned()
            },
            TransportError::UnsupportedUpgrade => "HTTP protocol upgrade is unsupported".to_owned(),
            TransportError::Http2(reason) => {
                "origin HTTP/2 error: ".to_owned().concat(reason.as_str())
            },
            TransportError::Http3(reason) => {
                "origin HTTP/3 error: ".to_owned().concat(reason.as_str())
            },
            TransportError::Quic(reason) => "origin QUIC error: ".to_owned().concat(reason.as_str()),
            TransportError::Tls(reason) => "origin TLS error: ".to_owned().concat(reason.as_str()),
            TransportError::InvalidRequest => "origin request is invalid".to_owned(),
            TransportError::RequestTooLarge => {
                "origin request body exceeds configured limit".to_owned()
            },
            TransportError::ResponseTooLarge => {
                "origin response exceeds configured limit".to_owned()
            },
            TransportError::MalformedResponse => "origin response is malformed".to_owned(),
            TransportError::Io(reason) => "origin I/O error: ".to_owned().concat(reason.as_str()),
        }
    }
}

} // verus!
