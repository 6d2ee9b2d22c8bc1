use hns_browser::transport::altsvc::{selected_alt_svc_endpoint, AltSvcEndpoint, AltSvcTable};
use hns_browser::transport::exchange::{
    connect_failure, fetch_to_writer, FailClosedTransport, FetchRoute, MuxEvent, MuxExchange, MuxStage,
    OriginTransport, TcpHttpTransport, TunnelHeadReader,
};
use hns_browser::transport::handshake::{
    webpki_status, CertificateVerdict, HandshakeLog, PolicyReply,
};
use hns_browser::transport::pool::{
    after_pooled, http11_pool_key, ConnectionPool, PooledEvent, PooledHttp11Connection, PooledStep,
    MAX_HTTP11_POOL_PER_ORIGIN,
};
use hns_browser::transport::request::{
    alpn_key, build_http2_request, build_http_request, build_http_upgrade_request,
    check_server_name, connection_host, http2_head, resumption_key, tls_validation_key,
    validate_request, validate_tunnel_request,
};
use hns_browser::transport::response::{
    parse_http_response, validate_upgrade_response_head, ResponseReader,
};
use hns_browser::transport::types::{
    DaneDecision, OriginProtocol, OriginRequest, OriginResponse, OriginResponseHead,
    TlsCertificateInspection, TlsValidation, TlsaMatching, TlsaRecord, TlsaSelector, TlsaUsage,
    TransportError, TransportLimits, WebPkiStatus,
};
use std::collections::hash_map::DefaultHasher;
use std::hash::{Hash, Hasher};

fn request() -> OriginRequest {
    OriginRequest {
        method: "GET".to_owned(),
        scheme: "http".to_owned(),
        host: "example.com".to_owned(),
        connect_host: Some("127.0.0.1".to_owned()),
        port: 8080,
        path_and_query: "/path?q=1".to_owned(),
        protocol: OriginProtocol::Http11,
        tls: TlsValidation::default(),
        headers: vec![("Proxy-Connection".to_owned(), "keep-alive".to_owned())],
        body: Vec::new(),
    }
}

fn https_request() -> OriginRequest {
    OriginRequest { scheme: "https".to_owned(), ..request() }
}

fn transport(limits: TransportLimits) -> TcpHttpTransport {
    TcpHttpTransport::new(1_000, 1_000, limits)
}

fn tlsa_spki_exact(spki: &[u8], usage: TlsaUsage) -> TlsaRecord {
    TlsaRecord {
        usage,
        selector: TlsaSelector::SubjectPublicKeyInfo,
        matching: TlsaMatching::Exact,
        association_data: spki.to_vec(),
    }
}

fn connection(id: u64) -> PooledHttp11Connection {
    PooledHttp11Connection { id, dane_decision: DaneDecision::NoTlsa, tls_inspection: None }
}

/// Fetches over HTTP/1.1 from an origin that sends `stream`. Gives the request
/// as it was sent, the connection it went over, and the response.
fn fetch_over(
    transport: &mut TcpHttpTransport,
    request: &OriginRequest,
    fresh: PooledHttp11Connection,
    stream: &[u8],
) -> Result<(String, u64, OriginResponse), TransportError> {
    let start = transport.begin_http11(request)?;
    let connection = start.pooled.unwrap_or(fresh);
    let id = connection.id;
    let sent = String::from_utf8(build_http_request(request, true)).unwrap();
    let (read, body, _, reusable) =
        parse_http_response(&stream.to_vec(), transport.limits(), &request.method)?;
    let (head, _) = transport.finish_http11(start.key, connection, read, reusable);
    transport.record_alt_svc(request, &head.headers, 0);
    Ok((sent, id, head.with_body(body)))
}

fn fetch(
    limits: TransportLimits,
    request: &OriginRequest,
    stream: &[u8],
) -> Result<OriginResponse, TransportError> {
    fetch_over(&mut transport(limits), request, connection(1), stream)
        .map(|(_, _, response)| response)
}

#[test]
fn fetches_http_origin_response() {
    let (raw_request, _, response) = fetch_over(
        &mut transport(TransportLimits::default()),
        &request(),
        connection(1),
        b"HTTP/1.1 200 OK\r\nContent-Length: 2\r\nX-Test: yes\r\n\r\nok",
    )
    .unwrap();

    assert_eq!(response.status, 200);
    assert_eq!(response.body, b"ok");
    assert_eq!(response.dane_decision, DaneDecision::NoTlsa);
    assert!(raw_request.starts_with("GET /path?q=1 HTTP/1.1\r\n"));
    assert!(raw_request.contains("Host: example.com"));
    assert!(raw_request.contains("Connection: keep-alive"));
}

#[test]
fn http_fetch_waits_longer_than_tunnel_idle_timeout() {
    let transport = TcpHttpTransport::default();
    assert!(transport.read_timeout_ms > hns_browser::transport::exchange::TUNNEL_READ_TIMEOUT_MS);

    let response = fetch(
        TransportLimits::default(),
        &request(),
        b"HTTP/1.1 200 OK\r\nContent-Length: 2\r\nConnection: close\r\n\r\nok",
    )
    .unwrap();

    assert_eq!(response.status, 200);
    assert_eq!(response.body, b"ok");
}

#[test]
fn decodes_chunked_response_body() {
    let response = fetch(
        TransportLimits::default(),
        &request(),
        b"HTTP/1.1 200 OK\r\nTransfer-Encoding: chunked\r\n\r\n2\r\nok\r\n0\r\n\r\n",
    )
    .unwrap();

    assert_eq!(response.body, b"ok");
}

#[test]
fn streams_response_body_to_writer() {
    let body = vec![b'a'; 128 * 1024];
    let mut stream = format!(
        "HTTP/1.1 200 OK\r\nContent-Length: {}\r\nX-Test: streamed\r\n\r\n",
        body.len()
    )
    .into_bytes();
    stream.extend(&body);
    let limits =
        TransportLimits { max_response_body_bytes: body.len(), ..TransportLimits::default() };
    let mut streamed = Vec::new();

    let mut reader = ResponseReader::new(limits, "GET").unwrap();
    let mut at = 0;
    while reader.want() > 0 {
        let end = stream.len().min(at + reader.want());
        streamed.extend(reader.feed(stream[at..end].to_vec()).unwrap());
        at = end;
    }
    let (head, reusable) = reader.finish().unwrap();

    assert_eq!(head.status, 200);
    assert_eq!(head.body_len, body.len());
    assert_eq!(
        head.headers,
        vec![
            ("Content-Length".to_owned(), body.len().to_string()),
            ("X-Test".to_owned(), "streamed".to_owned())
        ]
    );
    assert_eq!(streamed, body);
    assert!(reusable);
}

#[test]
fn reuses_http11_origin_connection() {
    let mut transport = transport(TransportLimits::default());

    let (first_request, first_id, first) = fetch_over(
        &mut transport,
        &request(),
        connection(1),
        b"HTTP/1.1 200 OK\r\nContent-Length: 3\r\n\r\none",
    )
    .unwrap();
    let (second_request, second_id, second) = fetch_over(
        &mut transport,
        &request(),
        connection(2),
        b"HTTP/1.1 200 OK\r\nContent-Length: 3\r\n\r\ntwo",
    )
    .unwrap();

    assert_eq!(first.body, b"one");
    assert_eq!(second.body, b"two");
    assert_eq!((first_id, second_id), (1, 1));
    assert!(first_request.contains("Connection: keep-alive\r\n"));
    assert!(second_request.contains("Connection: keep-alive\r\n"));
}

#[test]
fn closed_connections_are_not_kept() {
    for stream in [
        &b"HTTP/1.1 200 OK\r\nContent-Length: 2\r\nConnection: close\r\n\r\nok"[..],
        &b"HTTP/1.0 200 OK\r\nContent-Length: 2\r\n\r\nok"[..],
        &b"HTTP/1.1 200 OK\r\n\r\nok"[..],
    ] {
        let mut transport = transport(TransportLimits::default());
        fetch_over(&mut transport, &request(), connection(1), stream).unwrap();
        assert!(transport.http11_pool.slots.is_empty());
    }
}

#[test]
fn pool_keeps_a_few_connections_for_each_origin() {
    let mut pool = ConnectionPool::new();
    let key = http11_pool_key(&request());
    for id in 0..MAX_HTTP11_POOL_PER_ORIGIN as u64 {
        assert_eq!(pool.put_http11_connection(key.clone(), connection(id)), None);
    }
    assert_eq!(pool.put_http11_connection(key.clone(), connection(99)), Some(connection(0)));
    let other = http11_pool_key(&OriginRequest { port: 81, ..request() });
    assert_eq!(pool.take_http11_connection(&other), None);
    assert_eq!(pool.take_http11_connection(&key), Some(connection(1)));
    assert!(key.same(&http11_pool_key(&request())));
    assert!(!key.same(&other));
}

#[test]
fn failed_kept_connection_is_replaced_only_before_a_body() {
    let failed = |handed_on| PooledEvent::Failed {
        error: TransportError::Io("reset".to_owned()),
        handed_on,
    };
    assert_eq!(after_pooled(PooledEvent::Gone), PooledStep::Fresh);
    assert_eq!(after_pooled(failed(0)), PooledStep::Fresh);
    assert_eq!(
        after_pooled(failed(1)),
        PooledStep::Fail(TransportError::Io("reset".to_owned())),
    );
}

#[test]
fn error_leaves_the_reader_as_it_was() {
    let mut reader = ResponseReader::new(TransportLimits::default(), "GET").unwrap();
    for byte in b"HTTP/1.1 200 OK\r\nContent-Length: x\r\n\r" {
        reader.feed(vec![*byte]).unwrap();
    }
    let before = reader.clone();
    assert_eq!(reader.feed(vec![b'\n']), Err(TransportError::MalformedResponse));
    assert_eq!(reader, before);
    assert!(reader.feed(Vec::new()).is_err());
    assert_eq!(reader, before);
}

#[test]
fn finished_request_tells_which_connection_goes() {
    let mut transport = transport(TransportLimits::default());
    let key = http11_pool_key(&request());
    let read = || OriginResponseHead {
        status: 200,
        headers: Vec::new(),
        body_len: 0,
        dane_decision: DaneDecision::NoTlsa,
        tls_inspection: None,
    };
    for id in 0..MAX_HTTP11_POOL_PER_ORIGIN as u64 {
        let (_, gone) = transport.finish_http11(key.clone(), connection(id), read(), true);
        assert_eq!(gone, None);
    }
    let (_, gone) = transport.finish_http11(key.clone(), connection(8), read(), false);
    assert_eq!(gone, None);
    let (_, gone) = transport.finish_http11(key, connection(9), read(), true);
    assert_eq!(gone, Some(connection(0)));
    transport.begin_http11(&request()).unwrap();
    transport.record_alt_svc(&https_request(), &Vec::new(), 5);
    assert_eq!((transport.connect_timeout_ms, transport.read_timeout_ms), (1_000, 1_000));
}

#[test]
fn promotes_https_same_port_alt_svc_to_http2() {
    let mut transport = transport(TransportLimits::default());
    let request = OriginRequest {
        tls: TlsValidation::hns_strict(true, vec![tlsa_spki_exact(b"spki", TlsaUsage::DaneEe)]),
        ..https_request()
    };

    let (_, route) = transport.plan_fetch(&request, 0);
    assert_eq!(route, Ok(FetchRoute::TlsHttp11));
    let (first_request, _, first) = fetch_over(
        &mut transport,
        &request,
        connection(1),
        b"HTTP/1.1 200 OK\r\nContent-Length: 2\r\nAlt-Svc: h2=\":8080\"; ma=60\r\n\r\nh1",
    )
    .unwrap();
    let (promoted, route) = transport.plan_fetch(&request, 1);
    let head = build_http2_request(&promoted).unwrap();

    assert_eq!(first.body, b"h1");
    assert!(first_request.starts_with("GET /path?q=1 HTTP/1.1"));
    assert_eq!(route, Ok(FetchRoute::TlsHttp2));
    assert!(head.uri.starts_with("https://example.com:"));
    assert!(head.uri.ends_with("/path?q=1"));
    assert_eq!(transport.plan_fetch(&request, 60_000).1, Ok(FetchRoute::TlsHttp11));
}

#[test]
fn alternatives_are_chosen_and_forgotten() {
    let select = |value: &str| selected_alt_svc_endpoint(&vec![value.to_owned()], 443, 5);
    assert_eq!(
        select("h2=\":443\", h3=\":443\"; ma=10"),
        Some(AltSvcEndpoint { protocol: OriginProtocol::Http3, port: 443, expires_at: 10_005 }),
    );
    assert_eq!(
        select("h2=\":443\"").unwrap().expires_at,
        86_400_005,
    );
    assert_eq!(select("h2=\":8443\""), None);
    assert_eq!(select("h2=\"other:443\"").unwrap().port, 443);
    assert_eq!(select("h2=\"other:8443\""), None);
    assert_eq!(select("spdy=\":443\""), None);

    let mut table = AltSvcTable::new();
    let request = OriginRequest { port: 443, ..https_request() };
    let offer = |value: &str| vec![("alt-svc".to_owned(), value.to_owned())];
    table.record_alt_svc(&request, &offer("h3=\":443\""), 0);
    assert_eq!(table.promoted_request(&request, 1).protocol, OriginProtocol::Http3);
    assert_eq!(
        table.promoted_request(&OriginRequest { port: 444, ..request.clone() }, 1).protocol,
        OriginProtocol::Http11,
    );
    table.record_alt_svc(&request, &offer("clear"), 2);
    assert_eq!(table.promoted_request(&request, 3).protocol, OriginProtocol::Http11);
}

fn upgrade_request() -> OriginRequest {
    let mut request = request();
    request.headers.extend([
        ("Connection".to_owned(), "Upgrade".to_owned()),
        ("Upgrade".to_owned(), "websocket".to_owned()),
        ("Sec-WebSocket-Key".to_owned(), "dGhlIHNhbXBsZSBub25jZQ==".to_owned()),
        ("Sec-WebSocket-Version".to_owned(), "13".to_owned()),
    ]);
    request
}

#[test]
fn opens_http11_upgrade_tunnel_and_preserves_stream_bytes() {
    let transport = transport(TransportLimits::default());
    let (planned, tls) = transport.plan_tunnel(&upgrade_request()).unwrap();
    assert!(!tls);
    let raw_request = String::from_utf8(build_http_upgrade_request(&planned)).unwrap();

    let stream = b"HTTP/1.1 101 Switching Protocols\r\nConnection: Upgrade\r\nUpgrade: websocket\r\n\r\nping";
    let mut reader =
        TunnelHeadReader::new(transport.limits().max_response_header_bytes).unwrap();
    let mut at = 0;
    while !reader.feed(Some(stream[at])).unwrap() {
        at += 1;
    }
    validate_upgrade_response_head(&reader.head).unwrap();

    assert!(reader.head.starts_with(b"HTTP/1.1 101 "));
    assert_eq!(&stream[at + 1..], b"ping");
    assert!(raw_request.contains("Connection: Upgrade\r\n"));
    assert!(raw_request.contains("Upgrade: websocket\r\n"));
}

#[test]
fn tunnels_need_an_upgrade() {
    let limits = TransportLimits::default();
    assert_eq!(
        validate_tunnel_request(&request(), limits),
        Err(TransportError::UnsupportedUpgrade),
    );
    assert_eq!(validate_tunnel_request(&upgrade_request(), limits), Ok(()));
    assert_eq!(
        validate_request(&upgrade_request(), limits),
        Err(TransportError::UnsupportedUpgrade),
    );
    let transport = transport(limits);
    let secure = OriginRequest { scheme: "wss".to_owned(), ..upgrade_request() };
    let (planned, tls) = transport.plan_tunnel(&secure).unwrap();
    assert!(tls);
    assert_eq!(planned.scheme, "https");
    assert_eq!(
        transport.plan_tunnel(&OriginRequest { scheme: "ftp".to_owned(), ..upgrade_request() }),
        Err(TransportError::UnsupportedScheme),
    );
    assert!(validate_upgrade_response_head(&b"HTTP/1.1 200 OK\r\n\r\n".to_vec()).is_err());
    let mut reader = TunnelHeadReader::new(4).unwrap();
    assert!(reader.feed(None).is_err());
    assert_eq!(TunnelHeadReader::new(0), Err(TransportError::ResponseTooLarge));
}

#[test]
fn rejects_unsupported_transfer_encoded_response() {
    assert_eq!(
        fetch(
            TransportLimits::default(),
            &request(),
            b"HTTP/1.1 200 OK\r\nTransfer-Encoding: gzip\r\n\r\nabc",
        )
        .unwrap_err(),
        TransportError::UnsupportedTransferEncoding,
    );
}

#[test]
fn rejects_ambiguous_transfer_encoding_and_content_length() {
    assert_eq!(
        fetch(
            TransportLimits::default(),
            &request(),
            b"HTTP/1.1 200 OK\r\nTransfer-Encoding: chunked\r\nContent-Length: 2\r\n\r\n2\r\nok\r\n0\r\n\r\n",
        )
        .unwrap_err(),
        TransportError::MalformedResponse,
    );
}

#[test]
fn head_response_never_reads_message_body() {
    let request = OriginRequest { method: "HEAD".to_owned(), ..request() };

    let response = fetch(
        TransportLimits::default(),
        &request,
        b"HTTP/1.1 200 OK\r\nContent-Length: 3\r\n\r\nabc",
    )
    .unwrap();

    assert_eq!(response.status, 200);
    assert!(response.body.is_empty());
}

#[test]
fn rewrites_request_content_length_from_body() {
    let mut request = request();
    request.port = 80;
    request.body = b"hi".to_vec();
    request.headers.push(("Content-Length".to_owned(), "999".to_owned()));

    let text = String::from_utf8(build_http_request(&request, false)).unwrap();

    assert_eq!(text.matches("Content-Length:").count(), 1);
    assert!(text.contains("Content-Length: 2\r\n"));
    assert!(!text.contains("Content-Length: 999\r\n"));
    assert!(text.ends_with("\r\n\r\nhi"));
}

#[test]
fn forwards_range_request_header_to_origin() {
    let mut request = request();
    request.port = 80;
    request.headers.push(("Range".to_owned(), "bytes=10-19".to_owned()));
    request.headers.push(("If-Range".to_owned(), "\"abc\"".to_owned()));

    let text = String::from_utf8(build_http_request(&request, false)).unwrap();

    assert!(text.contains("Range: bytes=10-19\r\n"));
    assert!(text.contains("If-Range: \"abc\"\r\n"));
}

#[test]
fn rejects_protocol_upgrade_before_stripping_hop_by_hop_headers() {
    let mut request = request();
    request.port = 80;
    request.headers.push(("Connection".to_owned(), "keep-alive, Upgrade".to_owned()));
    request.headers.push(("Upgrade".to_owned(), "websocket".to_owned()));

    assert_eq!(
        validate_request(&request, TransportLimits::default()).unwrap_err(),
        TransportError::UnsupportedUpgrade,
    );
}

#[test]
fn rejects_oversized_response_body() {
    let limits = TransportLimits { max_response_body_bytes: 2, ..TransportLimits::default() };

    assert_eq!(
        fetch(limits, &request(), b"HTTP/1.1 200 OK\r\nContent-Length: 3\r\n\r\nabc").unwrap_err(),
        TransportError::ResponseTooLarge,
    );
    assert_eq!(
        fetch(
            limits,
            &request(),
            b"HTTP/1.1 200 OK\r\nTransfer-Encoding: chunked\r\n\r\n2\r\nok\r\n1\r\n!\r\n0\r\n\r\n",
        )
        .unwrap_err(),
        TransportError::ResponseTooLarge,
    );
    assert_eq!(
        fetch(limits, &request(), b"HTTP/1.1 200 OK\r\n\r\nabc").unwrap_err(),
        TransportError::ResponseTooLarge,
    );
}

#[test]
fn responses_are_cut_at_their_ends() {
    let limits = TransportLimits::default();
    let (head, body, used, reusable) = parse_http_response(
        &b"HTTP/1.1 204 No Content\r\nA: b\r\n\r\nHTTP/1.1".to_vec(),
        limits,
        "GET",
    )
    .unwrap();
    assert_eq!((head.status, body.len(), used, reusable), (204, 0, 33, true));
    let (head, body, _, _) = parse_http_response(
        &b"HTTP/1.1 200 OK\r\nTransfer-Encoding: chunked\r\n\r\n3;x=y\r\nabc\r\nA\r\n0123456789\r\n0\r\nT: v\r\n\r\n".to_vec(),
        limits,
        "GET",
    )
    .unwrap();
    assert_eq!(head.body_len, 13);
    assert_eq!(body, b"abc0123456789");
    for stream in [
        &b""[..],
        &b"HTTP/1.1 200 OK\r\n"[..],
        &b"HTTP/1.1\r\n\r\n"[..],
        &b"HTTP/1.1 abc OK\r\n\r\n"[..],
        &b"HTTP/1.1 200 OK\r\nno colon\r\n\r\n"[..],
        &b"HTTP/1.1 200 OK\r\nContent-Length: 2\r\nContent-Length: 3\r\n\r\nabc"[..],
        &b"HTTP/1.1 200 OK\r\nContent-Length: x\r\n\r\n"[..],
        &b"HTTP/1.1 200 OK\r\nTransfer-Encoding: chunked\r\n\r\nzz\r\n"[..],
        &b"HTTP/1.1 200 OK\r\nTransfer-Encoding: chunked\r\n\r\n1\r\nabcd"[..],
    ] {
        assert_eq!(
            parse_http_response(&stream.to_vec(), limits, "GET").unwrap_err(),
            TransportError::MalformedResponse,
        );
    }
    assert!(matches!(
        parse_http_response(
            &b"HTTP/1.1 200 OK\r\nContent-Length: 4\r\n\r\nab".to_vec(),
            limits,
            "GET"
        ),
        Err(TransportError::Io(_)),
    ));
    let small = TransportLimits { max_response_header_bytes: 16, ..limits };
    assert_eq!(
        parse_http_response(&b"HTTP/1.1 200 OK\r\nA: b\r\n\r\n".to_vec(), small, "GET"),
        Err(TransportError::ResponseTooLarge),
    );
}

fn inspection(webpki_status: WebPkiStatus, intermediates: &[&[u8]]) -> TlsCertificateInspection {
    TlsCertificateInspection {
        end_entity_der: b"cert".to_vec(),
        end_entity_spki_der: b"spki".to_vec(),
        intermediate_der: intermediates.iter().map(|der| der.to_vec()).collect(),
        webpki_status,
    }
}

/// A handshake whose certificate is judged as `reply` says, and the response
/// that follows it.
fn fetch_over_tls(
    request: &OriginRequest,
    reply: PolicyReply,
    seen: TlsCertificateInspection,
) -> Result<(String, OriginResponse), TransportError> {
    let mut transport = transport(TransportLimits::default());
    validate_request(request, transport.limits())?;
    check_server_name(request)?;
    let mut log = HandshakeLog::new();
    log.begin_handshake(1, &request.host);
    match log.verify_server_cert(1, reply, Ok(seen)) {
        CertificateVerdict::Rejected(reason) => return Err(TransportError::Tls(reason)),
        CertificateVerdict::AsWebPki => return Err(TransportError::Tls("bad certificate".to_owned())),
        CertificateVerdict::Accepted(_) => {}
    }
    let (dane_decision, tls_inspection) = log.finish_handshake(1, &request.host)?;
    let opened = PooledHttp11Connection { id: 1, dane_decision, tls_inspection };
    fetch_over(&mut transport, request, opened, b"HTTP/1.1 200 OK\r\nContent-Length: 2\r\n\r\nok")
        .map(|(sent, _, response)| (sent, response))
}

#[test]
fn fetches_https_with_webpki_fallback() {
    let (sent, response) = fetch_over_tls(
        &https_request(),
        PolicyReply::Decided(DaneDecision::WebPkiFallback),
        inspection(webpki_status(true), &[]),
    )
    .unwrap();

    assert_eq!(response.status, 200);
    assert_eq!(response.body, b"ok");
    assert_eq!(response.dane_decision, DaneDecision::WebPkiFallback);
    assert!(sent.starts_with("GET /path?q=1 HTTP/1.1\r\n"));
}

#[test]
fn fetches_https_with_dnssec_tlsa_match() {
    let request = OriginRequest {
        tls: TlsValidation::hns_strict(true, vec![tlsa_spki_exact(b"spki", TlsaUsage::DaneEe)]),
        ..https_request()
    };
    let (_, response) = fetch_over_tls(
        &request,
        PolicyReply::Decided(DaneDecision::Matched(TlsaUsage::DaneEe)),
        inspection(webpki_status(false), &[]),
    )
    .unwrap();

    assert_eq!(response.status, 200);
    assert_eq!(response.dane_decision, DaneDecision::Matched(TlsaUsage::DaneEe));
    let inspection = response.tls_inspection.expect("TLS inspection");
    assert_eq!(inspection.end_entity_der, b"cert");
    assert_eq!(inspection.end_entity_spki_der, b"spki");
    assert_eq!(inspection.intermediate_der.len(), 0);
    assert_eq!(inspection.webpki_status, WebPkiStatus::Invalid);
}

/// What the policy says of a certificate: that a secure record of the request
/// names its key, or that none does.
fn exact_key_policy(tls: &TlsValidation, seen: &TlsCertificateInspection) -> PolicyReply {
    if !tls.dnssec_secure {
        return PolicyReply::Refused("TLSA records are not DNSSEC secure".to_owned());
    }
    let found = tls.tlsa_records.iter().find(|record| {
        record.selector == TlsaSelector::SubjectPublicKeyInfo
            && record.matching == TlsaMatching::Exact
            && record.association_data == seen.end_entity_spki_der
    });
    PolicyReply::Decided(match found {
        Some(record) => DaneDecision::Matched(record.usage),
        None => DaneDecision::Failed,
    })
}

/// A request over HTTP/2 or HTTP/3 to an origin that shows the certificate `seen`
/// and sends the body in `chunks`.
fn fetch_multiplexed(
    request: &OriginRequest,
    seen: TlsCertificateInspection,
    chunks: &[&[u8]],
) -> Result<(String, OriginResponse), TransportError> {
    let mut exchange = MuxExchange::new(request, TransportLimits::default())?;
    let sent = build_http2_request(request)?;
    let mut log = HandshakeLog::new();
    log.begin_handshake(7, &request.host);
    let reply = exact_key_policy(&request.tls, &seen);
    if let CertificateVerdict::Rejected(reason) = log.verify_server_cert(7, reply, Ok(seen)) {
        return Err(TransportError::Tls(reason));
    }
    exchange.on_event(MuxEvent::Connected(true))?;
    while exchange.stage != MuxStage::ReceiveHead {
        exchange.on_event(MuxEvent::Completed)?;
    }
    let length: usize = chunks.iter().map(|chunk| chunk.len()).sum();
    exchange.on_event(MuxEvent::Head(
        200,
        vec![("content-length".to_owned(), length.to_string().into_bytes())],
    ))?;
    let mut body = Vec::new();
    for chunk in chunks {
        exchange.on_event(MuxEvent::Chunk(chunk.len()))?;
        body.extend_from_slice(chunk);
    }
    exchange.on_event(MuxEvent::End)?;
    let (decision, inspection) = log.finish_handshake(7, &request.host)?;
    let head = exchange.finish(decision, inspection).unwrap();
    assert_eq!(head.body_len, body.len());
    Ok((format!("{} {}", sent.method, sent.uri), head.with_body(body)))
}

#[test]
fn fetches_https_http2_with_dnssec_tlsa_match() {
    let request = OriginRequest {
        protocol: OriginProtocol::Http2,
        tls: TlsValidation::hns_strict(true, vec![tlsa_spki_exact(b"spki", TlsaUsage::DaneEe)]),
        ..https_request()
    };
    let (request_text, response) =
        fetch_multiplexed(&request, inspection(WebPkiStatus::Invalid, &[]), &[b"o", b"k"]).unwrap();

    assert_eq!(response.status, 200);
    assert_eq!(response.body, b"ok");
    assert_eq!(response.dane_decision, DaneDecision::Matched(TlsaUsage::DaneEe));
    assert!(request_text.starts_with("GET https://example.com:"));
    assert!(request_text.ends_with("/path?q=1"));
}

#[test]
fn fetches_https_http3_with_dnssec_tlsa_match() {
    let request = OriginRequest {
        protocol: OriginProtocol::Http3,
        tls: TlsValidation::hns_strict(true, vec![tlsa_spki_exact(b"spki", TlsaUsage::DaneEe)]),
        ..https_request()
    };
    let (request_text, response) =
        fetch_multiplexed(&request, inspection(WebPkiStatus::Invalid, &[]), &[b"o", b"k"]).unwrap();

    assert_eq!(response.status, 200);
    assert_eq!(response.body, b"ok");
    assert_eq!(response.dane_decision, DaneDecision::Matched(TlsaUsage::DaneEe));
    assert!(request_text.starts_with("GET https://example.com:"));
    assert!(request_text.ends_with("/path?q=1"));
}

#[test]
fn multiplexed_response_carries_the_decision_of_its_handshake() {
    let request = |key: &[u8], usage| OriginRequest {
        protocol: OriginProtocol::Http2,
        tls: TlsValidation::hns_strict(true, vec![tlsa_spki_exact(key, usage)]),
        ..https_request()
    };
    let seen = || inspection(WebPkiStatus::Invalid, &[]);
    let (_, response) =
        fetch_multiplexed(&request(b"spki", TlsaUsage::PkixEe), seen(), &[b"a longer ", b"body"])
            .unwrap();
    assert_eq!(response.body, b"a longer body");
    assert_eq!(response.dane_decision, DaneDecision::Matched(TlsaUsage::PkixEe));
    assert_eq!(response.tls_inspection, Some(seen()));
    assert_eq!(
        fetch_multiplexed(&request(b"other key", TlsaUsage::DaneEe), seen(), &[b"ok"]),
        Err(TransportError::Tls("DANE certificate association did not match".to_owned())),
    );
}

#[test]
fn multiplexed_requests_fail_closed() {
    let request = OriginRequest { protocol: OriginProtocol::Http2, ..https_request() };
    let fresh = || MuxExchange::new(&request, TransportLimits::default()).unwrap();

    let mut exchange = fresh();
    assert_eq!(
        exchange.on_event(MuxEvent::Connected(false)),
        Err(TransportError::UnsupportedTransport),
    );
    let mut exchange = fresh();
    assert!(exchange.on_event(MuxEvent::TimedOut).is_err());
    let mut exchange = fresh();
    exchange.stage = MuxStage::ReceiveHead;
    assert!(matches!(
        exchange.on_event(MuxEvent::Failed("reset".to_owned())),
        Err(TransportError::Http2(_)),
    ));
    let head = |length: &str| {
        MuxEvent::Head(200, vec![("content-length".to_owned(), length.as_bytes().to_vec())])
    };
    let mut exchange = fresh();
    exchange.stage = MuxStage::ReceiveHead;
    exchange.on_event(head("3")).unwrap();
    exchange.on_event(MuxEvent::Chunk(2)).unwrap();
    assert_eq!(exchange.on_event(MuxEvent::End), Err(TransportError::MalformedResponse));
    let mut exchange = fresh();
    exchange.stage = MuxStage::ReceiveHead;
    assert_eq!(exchange.on_event(head("x")), Err(TransportError::MalformedResponse));
    let mut exchange = fresh();
    exchange.limit = 3;
    exchange.stage = MuxStage::ReceiveHead;
    exchange.on_event(MuxEvent::Head(200, Vec::new())).unwrap();
    exchange.on_event(MuxEvent::Chunk(2)).unwrap();
    assert_eq!(exchange.on_event(MuxEvent::Chunk(2)), Err(TransportError::ResponseTooLarge));
    assert_eq!(fresh().finish(DaneDecision::NoTlsa, None), None);
}

#[test]
fn fetches_https_with_dane_ta_intermediate_match() {
    let request = OriginRequest {
        tls: TlsValidation::hns_strict(
            true,
            vec![tlsa_spki_exact(b"issuer spki", TlsaUsage::DaneTa)],
        ),
        ..https_request()
    };
    let (_, response) = fetch_over_tls(
        &request,
        PolicyReply::Decided(DaneDecision::Matched(TlsaUsage::DaneTa)),
        inspection(WebPkiStatus::Invalid, &[b"issuer"]),
    )
    .unwrap();

    assert_eq!(response.status, 200);
    assert_eq!(response.dane_decision, DaneDecision::Matched(TlsaUsage::DaneTa));
    let inspection = response.tls_inspection.expect("TLS inspection");
    assert_eq!(inspection.end_entity_der, b"cert");
    assert_eq!(inspection.intermediate_der.len(), 1);
    assert_eq!(inspection.intermediate_der[0], b"issuer");
}

#[test]
fn rejects_insecure_tlsa_https() {
    let request = OriginRequest {
        tls: TlsValidation::hns_strict(false, vec![tlsa_spki_exact(b"spki", TlsaUsage::DaneEe)]),
        ..https_request()
    };
    let error = fetch_over_tls(
        &request,
        PolicyReply::Refused("TLSA records are not DNSSEC secure".to_owned()),
        inspection(WebPkiStatus::Invalid, &[]),
    )
    .unwrap_err();

    assert!(matches!(error, TransportError::Io(_) | TransportError::Tls(_)), "{error:?}");
}

#[test]
fn certificates_are_judged_before_they_are_kept() {
    let mut log = HandshakeLog::new();
    log.begin_handshake(1, "example.com");
    assert_eq!(
        log.verify_server_cert(
            1,
            PolicyReply::Decided(DaneDecision::Failed),
            Ok(inspection(WebPkiStatus::Valid, &[])),
        ),
        CertificateVerdict::Rejected("DANE certificate association did not match".to_owned()),
    );
    assert_eq!(
        log.verify_server_cert(1, PolicyReply::WebPkiFailed, Err("unread".to_owned())),
        CertificateVerdict::AsWebPki,
    );
    assert_eq!(
        log.verify_server_cert(
            1,
            PolicyReply::Decided(DaneDecision::WebPkiFallback),
            Err("bad DER".to_owned()),
        ),
        CertificateVerdict::Rejected("TLS certificate inspection failed: bad DER".to_owned()),
    );
    assert_eq!(
        log.verify_server_cert(1, PolicyReply::Refused("no".to_owned()), Err("x".to_owned())),
        CertificateVerdict::Rejected("DANE policy rejected certificate: no".to_owned()),
    );
    assert!(log.finish_handshake(1, "example.com").is_err());
}

#[test]
fn resumed_handshake_reports_the_last_certificate() {
    let mut log = HandshakeLog::new();
    log.begin_handshake(1, "example.com");
    log.verify_server_cert(
        1,
        PolicyReply::Decided(DaneDecision::WebPkiFallback),
        Ok(inspection(WebPkiStatus::Valid, &[])),
    );
    let first = log.finish_handshake(1, "example.com").unwrap();
    log.begin_handshake(2, "example.com");
    assert_eq!(log.finish_handshake(2, "example.com").unwrap(), first);
    log.begin_handshake(2, "other.com");
    assert!(log.finish_handshake(2, "other.com").is_err());
}

#[test]
fn rejects_invalid_https_server_name() {
    let mut transport = TcpHttpTransport::default();
    let request = OriginRequest { host: "bad host".to_owned(), port: 443, ..https_request() };

    assert_eq!(
        transport.begin_http11(&request).unwrap_err(),
        TransportError::InvalidRequest,
    );
}

#[test]
fn rejects_invalid_request_header() {
    let mut transport = TcpHttpTransport::default();
    let mut request = request();
    request.headers.push(("Bad\r\nHeader".to_owned(), "x".to_owned()));

    assert_eq!(
        transport.begin_http11(&request).unwrap_err(),
        TransportError::InvalidRequest,
    );
}

#[test]
fn fail_closed_transport_rejects_fetch() {
    assert_eq!(
        FailClosedTransport.fetch(&request()),
        Err(TransportError::UnsupportedTransport),
    );
    let mut body = Vec::new();
    assert_eq!(
        fetch_to_writer(&mut FailClosedTransport, &request(), &mut body),
        Err(TransportError::UnsupportedTransport),
    );
    assert!(body.is_empty());
    assert_eq!(
        FailClosedTransport.open_tunnel(&upgrade_request()),
        Err(TransportError::UnsupportedTransport),
    );
}

#[test]
fn connections_go_to_the_given_host() {
    assert_eq!(connection_host(&request()), "127.0.0.1");
    assert_eq!(
        connection_host(&OriginRequest { connect_host: None, ..request() }),
        "example.com",
    );
    assert_eq!(
        connect_failure(None),
        TransportError::Io("no resolved socket addresses".to_owned()),
    );
    assert_eq!(
        connect_failure(Some("refused".to_owned())),
        TransportError::Io("refused".to_owned()),
    );
}

#[test]
fn requests_are_refused_before_they_are_sent() {
    let limits = TransportLimits::default();
    assert_eq!(validate_request(&request(), limits), Ok(()));
    assert_eq!(
        validate_request(
            &OriginRequest { body: vec![0; limits.max_request_body_bytes + 1], ..request() },
            limits,
        ),
        Err(TransportError::RequestTooLarge),
    );
    for bad in [
        OriginRequest { method: "".to_owned(), ..request() },
        OriginRequest { method: "G ET".to_owned(), ..request() },
        OriginRequest { host: "".to_owned(), ..request() },
        OriginRequest { path_and_query: "path".to_owned(), ..request() },
        OriginRequest { path_and_query: "/a b\r\n".to_owned(), ..request() },
        OriginRequest {
            headers: vec![("A".to_owned(), "b\r\nc".to_owned())],
            ..request()
        },
    ] {
        assert_eq!(validate_request(&bad, limits), Err(TransportError::InvalidRequest));
    }
    let planned = TcpHttpTransport::default()
        .plan_fetch(&OriginRequest { scheme: "ftp".to_owned(), ..request() }, 0);
    assert_eq!(planned.1, Err(TransportError::UnsupportedScheme));
    let planned = TcpHttpTransport::default()
        .plan_fetch(&OriginRequest { protocol: OriginProtocol::Http2, ..request() }, 0);
    assert_eq!(planned.1, Err(TransportError::UnsupportedTransport));
}

#[test]
fn server_names_are_those_of_tls() {
    for (host, ok) in [
        ("example.com", true),
        ("127.0.0.1", true),
        ("welcome", true),
        ("exa mple.com", false),
        ("-", false),
        ("", false),
    ] {
        let named = check_server_name(&OriginRequest { host: host.to_owned(), ..https_request() });
        assert_eq!(named.is_ok(), ok, "{host}");
    }
}

#[test]
fn multiplexed_heads_hold_what_http_allows() {
    let mut request = https_request();
    request.protocol = OriginProtocol::Http2;
    request.headers = vec![
        ("X-Mixed".to_owned(), "a".to_owned()),
        ("Connection".to_owned(), "close".to_owned()),
    ];
    let head = build_http2_request(&request).unwrap();
    assert_eq!(head.method, "GET");
    assert_eq!(head.uri, "https://example.com:8080/path?q=1");
    assert!(head.headers.contains(&("x-mixed".to_owned(), "a".to_owned())));
    assert!(head.headers.contains(&("accept".to_owned(), "*/*".to_owned())));
    assert!(!head.headers.iter().any(|(name, _)| name == "connection"));
    for bad in [
        OriginRequest { method: "G@T".to_owned(), ..request.clone() },
        OriginRequest { host: "exa mple".to_owned(), ..request.clone() },
        OriginRequest {
            headers: vec![("bad name".to_owned(), "x".to_owned())],
            ..request.clone()
        },
        OriginRequest {
            headers: vec![("name".to_owned(), "x\u{1}".to_owned())],
            ..request.clone()
        },
    ] {
        assert!(build_http2_request(&bad).is_err());
    }
}

#[test]
fn connections_are_kept_apart_by_their_validation() {
    let strict =
        TlsValidation::hns_strict(true, vec![tlsa_spki_exact(&[0xab], TlsaUsage::DaneEe)]);
    let loose =
        TlsValidation::hns_compatibility(true, vec![tlsa_spki_exact(&[0xab], TlsaUsage::DaneEe)]);
    let other =
        TlsValidation::hns_strict(true, vec![tlsa_spki_exact(&[0xac], TlsaUsage::DaneEe)]);
    assert_ne!(tls_validation_key(&strict), tls_validation_key(&loose));
    assert_ne!(tls_validation_key(&strict), tls_validation_key(&other));
    assert_eq!(tls_validation_key(&strict), tls_validation_key(&strict.copy()));
    let hashed = |data: &[u8]| {
        let mut hasher = DefaultHasher::new();
        data.hash(&mut hasher);
        format!("{:016x}", hasher.finish())
    };
    assert_eq!(
        tls_validation_key(&strict),
        format!(
            "mode=HnsStrict;secure=true;records=1;DaneEe:SubjectPublicKeyInfo:Exact:{}",
            hashed(&[0xab]),
        ),
    );
    let long: Vec<u8> = (0..=255).cycle().take(1_000).collect();
    let empty = TlsaRecord {
        selector: TlsaSelector::FullCertificate,
        matching: TlsaMatching::Sha256,
        ..tlsa_spki_exact(&[], TlsaUsage::PkixTa)
    };
    assert_eq!(
        tls_validation_key(&TlsValidation::hns_compatibility(
            false,
            vec![empty, tlsa_spki_exact(&long, TlsaUsage::DaneTa)],
        )),
        format!(
            "mode=HnsCompatibility;secure=false;records=2;PkixTa:FullCertificate:Sha256:{};DaneTa:SubjectPublicKeyInfo:Exact:{}",
            hashed(&[]),
            hashed(&long),
        ),
    );
    let offered = vec![b"h2".to_vec(), b"http/1.1".to_vec()];
    assert_eq!(alpn_key(&offered), "h2,http/1.1");
    assert_eq!(alpn_key(&vec![vec![0xff]]), "\u{fffd}");
    assert_eq!(
        resumption_key(&strict, &offered),
        tls_validation_key(&strict) + "|alpn=h2,http/1.1",
    );
}

#[test]
fn addresses_that_are_no_uri_are_refused() {
    let uri = "https://example.com/".to_owned();
    assert_eq!(http2_head(&request(), uri.clone(), true).unwrap().uri, uri);
    assert_eq!(http2_head(&request(), uri, false), Err(TransportError::InvalidRequest));
}
