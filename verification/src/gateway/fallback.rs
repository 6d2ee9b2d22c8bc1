//! Falling back to a resolver over HTTPS.
use crate::dns;
use crate::dns::{DnsMessage, MessageView, RecordType};
use crate::error::ResolverError;
use crate::gateway::input::GatewayResolutionMode;
use crate::name;
use crate::name::DnsName;
use crate::nameserver;
use crate::resolver;
use crate::resolver::{AnswerView, Reply, RequestView, ResolutionAnswer, ResolutionRequest, Resolver};
use crate::text;
use crate::transport::types;
use crate::transport::types::{
    OriginProtocol, OriginRequest, OriginResponse, TlsValidation, TransportError,
};
use vstd::hash_map::*;
use vstd::prelude::*;
use vstd::string::*;

verus! {

pub const HNS_DOH_PORT: u16 = 443;

/// Whether the fallback was used, and why at first.
#[derive(Clone, Debug, PartialEq, Eq)]
pub struct FallbackMarker {
    pub used: bool,
    pub reason: Option<&'static str>,
}

pub struct MarkerView {
    pub used: bool,
    pub reason: Option<Seq<char>>,
}

impl View for FallbackMarker {
    type V = MarkerView;

    open spec fn view(&self) -> MarkerView {
        MarkerView {
            used: self.used,
            reason: match self.reason {
                Some(reason) => Some(reason@),
                None => None,
            },
        }
    }
}

/// A marker after a use of the fallback: the first reason stays.
pub open spec fn marked(marker: MarkerView, reason: Seq<char>) -> MarkerView {
    MarkerView {
        used: true,
        reason: match marker.reason {
            Some(first) => Some(first),
            None => Some(reason),
        },
    }
}

impl FallbackMarker {
    pub fn new() -> (r: Self)
        ensures
            r@ == (MarkerView { used: false, reason: None }),
    {
        FallbackMarker { used: false, reason: None }
    }

    pub fn mark(&mut self, reason: &'static str)
        ensures
            final(self)@ == marked(old(self)@, reason@),
    {
        self.used = true;
        if self.reason.is_none() {
            self.reason = Some(reason);
        }
    }

    pub fn used(&self) -> (r: bool)
        ensures
            r == self@.used,
    {
        self.used
    }

    pub fn reason(&self) -> (r: Option<&'static str>)
        ensures
            self@.reason == (match r {
                Some(reason) => Some(reason@),
                None => None,
            }),
    {
        self.reason
    }
}

/// Why an error of the first resolver leads to the fallback; none where it does
/// not.
pub open spec fn fallback_reason(error: ResolverError) -> Option<Seq<char>> {
    match error {
        ResolverError::ProofUnavailable => Some("local_hns_proof_unavailable"@),
        ResolverError::NoNameserverAddress => Some("no_verified_nameserver_address"@),
        ResolverError::DnsTransport(_) => Some("authoritative_nameserver_transport_failed"@),
        ResolverError::InvalidDnsResponse => Some("authoritative_nameserver_invalid_response"@),
        ResolverError::DnssecFailed => Some("delegated_dnssec_validation_failed"@),
        _ => None,
    }
}

pub fn doh_fallback_reason(error: &ResolverError) -> (r: Option<&'static str>)
    ensures
        fallback_reason(*error) == (match r {
            Some(reason) => Some(reason@),
            None => None,
        }),
{
    match error {
        ResolverError::ProofUnavailable => Some("local_hns_proof_unavailable"),
        ResolverError::NoNameserverAddress => Some("no_verified_nameserver_address"),
        ResolverError::DnsTransport(_) => Some("authoritative_nameserver_transport_failed"),
        ResolverError::InvalidDnsResponse => Some("authoritative_nameserver_invalid_response"),
        ResolverError::DnssecFailed => Some("delegated_dnssec_validation_failed"),
        _ => None,
    }
}

/// The root under which a fallback is remembered.
pub open spec fn cache_root(qname: Seq<char>) -> Seq<char> {
    text::lower(name::trace_root(qname))
}

pub fn fallback_cache_root(request: &ResolutionRequest) -> (r: String)
    ensures
        r@ == cache_root(request@.qname),
{
    let root = name::hns_trace_root(request.qname.as_str());
    text::to_lower(root.as_str())
}

/// Asks one resolver, and another where the first cannot help. Once a root
/// needed the other it is asked at once.
pub struct FallbackResolver<P, F> {
    pub primary: P,
    pub fallback: F,
    pub fallback_marker: FallbackMarker,
    pub fallback_roots: StringHashMap<&'static str>,
}

pub open spec fn roots_view(roots: StringHashMap<&'static str>) -> Map<Seq<char>, Seq<char>> {
    roots@.map_values(|reason: &'static str| reason@)
}

impl<P, F> FallbackResolver<P, F> {
    pub fn new(primary: P, fallback: F) -> (r: Self)
        ensures
            r.primary == primary,
            r.fallback == fallback,
            r.fallback_marker@ == (MarkerView { used: false, reason: None }),
            roots_view(r.fallback_roots) == Map::<Seq<char>, Seq<char>>::empty(),
    {
        FallbackResolver::with_marker(primary, fallback, FallbackMarker::new())
    }

    pub fn with_marker(primary: P, fallback: F, fallback_marker: FallbackMarker) -> (r: Self)
        ensures
            r.primary == primary,
            r.fallback == fallback,
            r.fallback_marker == fallback_marker,
            roots_view(r.fallback_roots) == Map::<Seq<char>, Seq<char>>::empty(),
    {
        let r = FallbackResolver {
            primary,
            fallback,
            fallback_marker,
            fallback_roots: StringHashMap::new(),
        };
        assert(roots_view(r.fallback_roots) =~= Map::<Seq<char>, Seq<char>>::empty());
        r
    }

    fn cached_fallback_reason(&self, request: &ResolutionRequest) -> (r: Option<&'static str>)
        ensures
            match r {
                Some(reason) => roots_view(self.fallback_roots).dom().contains(
                    cache_root(request@.qname),
                ) && roots_view(self.fallback_roots)[cache_root(request@.qname)] == reason@,
                None => !roots_view(self.fallback_roots).dom().contains(
                    cache_root(request@.qname),
                ),
            },
    {
        let root = fallback_cache_root(request);
        match self.fallback_roots.get(root.as_str()) {
            Some(reason) => Some(*reason),
            None => None,
        }
    }

    fn remember_fallback_reason(&mut self, request: &ResolutionRequest, reason: &'static str)
        requires
            !roots_view(old(self).fallback_roots).dom().contains(cache_root(request@.qname)),
        ensures
            final(self).primary == old(self).primary,
            final(self).fallback == old(self).fallback,
            final(self).fallback_marker == old(self).fallback_marker,
            roots_view(final(self).fallback_roots) == roots_view(old(self).fallback_roots).insert(
                cache_root(request@.qname),
                reason@,
            ),
    {
        let ghost before = roots_view(self.fallback_roots);
        let root = fallback_cache_root(request);
        let ghost key = root@;
        self.fallback_roots.insert(root, reason);
        assert(roots_view(self.fallback_roots) =~= before.insert(key, reason@));
    }
}

/// A fallback resolver: its two resolvers, its marker, and the roots it knows.
pub struct FallbackView<P, F> {
    pub primary: P,
    pub fallback: F,
    pub marker: MarkerView,
    pub roots: Map<Seq<char>, Seq<char>>,
}

impl<P, F> View for FallbackResolver<P, F> {
    type V = FallbackView<P, F>;

    open spec fn view(&self) -> FallbackView<P, F> {
        FallbackView {
            primary: self.primary,
            fallback: self.fallback,
            marker: self.fallback_marker@,
            roots: roots_view(self.fallback_roots),
        }
    }
}

/// Whether asking the fallback, for a reason, may end in `reply`.
pub open spec fn fell_back<P: Resolver, F: Resolver>(
    pre: FallbackView<P, F>,
    request: RequestView,
    reason: Seq<char>,
    reply: Reply,
    post: FallbackView<P, F>,
) -> bool {
    &&& F::resolves(pre.fallback, request, reply, post.fallback)
    &&& post.primary == pre.primary
    &&& post.marker == marked(pre.marker, reason)
}

/// Whether the first resolver's reply leads to `reply`.
pub open spec fn after_primary<P: Resolver, F: Resolver>(
    pre: FallbackView<P, F>,
    request: RequestView,
    first: Reply,
    asked: P,
    reply: Reply,
    post: FallbackView<P, F>,
) -> bool {
    let root = cache_root(request.qname);
    if first is Err && fallback_reason(first->Err_0) is Some {
        let reason = fallback_reason(first->Err_0)->0;
        &&& fell_back(FallbackView { primary: asked, ..pre }, request, reason, reply, post)
        &&& post.roots == pre.roots.insert(root, reason)
    } else {
        &&& reply == first
        &&& post == (FallbackView { primary: asked, ..pre })
    }
}

/// Whether a fallback resolver may reply `reply`.
pub open spec fn resolved_with_fallback<P: Resolver, F: Resolver>(
    pre: FallbackView<P, F>,
    request: RequestView,
    reply: Reply,
    post: FallbackView<P, F>,
) -> bool {
    let root = cache_root(request.qname);
    if pre.roots.dom().contains(root) {
        fell_back(pre, request, pre.roots[root], reply, post) && post.roots == pre.roots
    } else {
        exists|first: Reply, asked: P|
            #[trigger] P::resolves(pre.primary, request, first, asked) && after_primary(
                pre,
                request,
                first,
                asked,
                reply,
                post,
            )
    }
}

impl<P: Resolver, F: Resolver> Resolver for FallbackResolver<P, F> {
    open spec fn resolves(pre: Self, request: RequestView, reply: Reply, post: Self) -> bool {
        resolved_with_fallback(pre@, request, reply, post@)
    }

    fn resolve(&mut self, request: &ResolutionRequest) -> (r: Result<
        ResolutionAnswer,
        ResolverError,
    >) {
        let ghost pre = self@;
        if let Some(reason) = self.cached_fallback_reason(request) {
            self.fallback_marker.mark(reason);
            let r = self.fallback.resolve(request);
            assert(fell_back(pre, request@, reason@, resolver::answer_reply(r), self@));
            return r;
        }
        let first = self.primary.resolve(request);
        let ghost reply = resolver::answer_reply(first);
        let ghost asked = self.primary;
        assert(P::resolves(pre.primary, request@, reply, asked));
        let error = match first {
            Ok(answer) => {
                assert(after_primary(pre, request@, reply, asked, reply, self@));
                return Ok(answer);
            },
            Err(error) => error,
        };
        match doh_fallback_reason(&error) {
            Some(reason) => {
                self.remember_fallback_reason(request, reason);
                self.fallback_marker.mark(reason);
                let r = self.fallback.resolve(request);
                assert(after_primary(
                    pre,
                    request@,
                    reply,
                    asked,
                    resolver::answer_reply(r),
                    self@,
                ));
                r
            },
            None => {
                assert(after_primary(pre, request@, reply, asked, reply, self@));
                Err(error)
            },
        }
    }
}

/// The gateway's resolver: strict, or with the fallback.
pub enum AndroidGatewayResolver<P, F> {
    Strict(P),
    Compatibility(FallbackResolver<P, F>),
}

impl<P: Resolver, F: Resolver> Resolver for AndroidGatewayResolver<P, F> {
    open spec fn resolves(pre: Self, request: RequestView, reply: Reply, post: Self) -> bool {
        match (pre, post) {
            (AndroidGatewayResolver::Strict(before), AndroidGatewayResolver::Strict(after)) => {
                P::resolves(before, request, reply, after)
            },
            (
                AndroidGatewayResolver::Compatibility(before),
                AndroidGatewayResolver::Compatibility(after),
            ) => resolved_with_fallback(before@, request, reply, after@),
            _ => false,
        }
    }

    fn resolve(&mut self, request: &ResolutionRequest) -> (r: Result<
        ResolutionAnswer,
        ResolverError,
    >) {
        match self {
            AndroidGatewayResolver::Strict(resolver) => resolver.resolve(request),
            AndroidGatewayResolver::Compatibility(resolver) => resolver.resolve(request),
        }
    }
}

/// The resolver for a mode. Only in compatibility is there a fallback.
pub fn android_gateway_resolver<P: Resolver, F: Resolver>(
    mode: GatewayResolutionMode,
    primary: P,
    fallback: F,
    fallback_marker: FallbackMarker,
) -> (r: AndroidGatewayResolver<P, F>)
    ensures
        match mode {
            GatewayResolutionMode::Strict => r == AndroidGatewayResolver::<P, F>::Strict(primary),
            GatewayResolutionMode::Compatibility => match r {
                AndroidGatewayResolver::Strict(_) => false,
                AndroidGatewayResolver::Compatibility(resolver) => {
                    &&& resolver.primary == primary
                    &&& resolver.fallback == fallback
                    &&& resolver.fallback_marker == fallback_marker
                    &&& roots_view(resolver.fallback_roots) == Map::<Seq<char>, Seq<char>>::empty()
                },
            },
        },
{
    match mode {
        GatewayResolutionMode::Strict => AndroidGatewayResolver::Strict(primary),
        GatewayResolutionMode::Compatibility => AndroidGatewayResolver::Compatibility(
            FallbackResolver::with_marker(primary, fallback, fallback_marker),
        ),
    }
}

/// A strict resolver never falls back: what its one resolver may not reply it
/// may not reply either.
pub proof fn law_strict_resolver_has_no_fallback<P: Resolver, F: Resolver>(
    pre: P,
    request: RequestView,
    reply: Reply,
    post: AndroidGatewayResolver<P, F>,
)
    requires
        AndroidGatewayResolver::<P, F>::resolves(
            AndroidGatewayResolver::Strict(pre),
            request,
            reply,
            post,
        ),
    ensures
        post is Strict,
        P::resolves(pre, request, reply, post->Strict_0),
{
}

/// An answer of the first resolver stands, and so does an error that the
/// fallback is not for.
pub proof fn law_fallback_is_only_for_its_reasons<P: Resolver, F: Resolver>(
    pre: FallbackView<P, F>,
    request: RequestView,
    first: Reply,
    asked: P,
    reply: Reply,
    post: FallbackView<P, F>,
)
    requires
        after_primary(pre, request, first, asked, reply, post),
        first is Ok || fallback_reason(first->Err_0) is None,
    ensures
        reply == first,
        post.fallback == pre.fallback,
        post.marker == pre.marker,
{
}

/// Once a root needed the fallback, the first resolver is not asked for it
/// again.
pub proof fn law_known_roots_skip_the_first_resolver<P: Resolver, F: Resolver>(
    pre: FallbackView<P, F>,
    request: RequestView,
    reply: Reply,
    post: FallbackView<P, F>,
)
    requires
        pre.roots.dom().contains(cache_root(request.qname)),
        resolved_with_fallback(pre, request, reply, post),
    ensures
        post.primary == pre.primary,
        post.marker.used,
        post.roots == pre.roots,
{
}

/// What is asked of the resolver over HTTPS: the name must be one that DNS can
/// carry.
pub fn doh_question(request: &ResolutionRequest) -> (r: Result<
    (DnsName, RecordType),
    ResolverError,
>)
    ensures
        match r {
            Ok((qname, qtype)) => name::parse_name(request@.qname) == Some(qname@) && qtype
                == dns::record_type_of(request.qtype),
            Err(error) => name::parse_name(request@.qname) is None && error
                == ResolverError::UnsupportedBackend,
        },
{
    match DnsName::from_ascii(request.qname.as_str()) {
        Some(qname) => Ok((qname, RecordType::from_code(request.qtype))),
        None => Err(ResolverError::UnsupportedBackend),
    }
}

/// The query that goes to the resolver over HTTPS: recursion and DNSSEC
/// records are wanted.
pub open spec fn doh_query(id: u16, qname: dns::Labels, qtype: RecordType) -> MessageView {
    nameserver::query_for(id, qname, qtype, 0x0100)
}

pub fn build_doh_query(id: u16, qname: &DnsName, qtype: RecordType) -> (r: DnsMessage)
    ensures
        r@ == doh_query(id, qname@, qtype),
{
    nameserver::build_query(id, qname, qtype, 0x0100)
}

/// The request that carries a query over HTTPS.
pub open spec fn is_doh_request(request: types::RequestView, query: Seq<u8>) -> bool {
    &&& request.method == "POST"@
    &&& request.scheme == "https"@
    &&& request.host == "hnsdoh.com"@
    &&& request.connect_host is None
    &&& request.port == HNS_DOH_PORT
    &&& request.path_and_query == "/dns-query"@
    &&& request.protocol == OriginProtocol::Http11
    &&& request.tls == (types::TlsView {
        mode: types::DomainTrustMode::IcannWebPki,
        dnssec_secure: false,
        tlsa_records: Seq::empty(),
    })
    &&& request.headers == seq![
        ("Accept"@, "application/dns-message"@),
        ("Content-Type"@, "application/dns-message"@),
    ]
    &&& request.body == query
}

pub fn doh_request(query: Vec<u8>) -> (r: OriginRequest)
    ensures
        is_doh_request(r@, query@),
{
    let mut headers: Vec<types::Header> = Vec::new();
    headers.push(("Accept".to_owned(), "application/dns-message".to_owned()));
    headers.push(("Content-Type".to_owned(), "application/dns-message".to_owned()));
    assert(types::header_views(headers@) =~= seq![
        ("Accept"@, "application/dns-message"@),
        ("Content-Type"@, "application/dns-message"@),
    ]);
    OriginRequest {
        method: "POST".to_owned(),
        scheme: "https".to_owned(),
        host: "hnsdoh.com".to_owned(),
        connect_host: None,
        port: HNS_DOH_PORT,
        path_and_query: "/dns-query".to_owned(),
        protocol: OriginProtocol::Http11,
        tls: TlsValidation::default(),
        headers,
        body: query,
    }
}

/// The body of the response to a query over HTTPS, or why there is none.
pub open spec fn doh_body(response: Result<OriginResponse, TransportError>) -> Result<
    Seq<u8>,
    Seq<char>,
> {
    match response {
        Err(error) => Err("HNS DoH compatibility resolver failed: "@ + error.text()),
        Ok(response) => if response.status == 200 {
            Ok(response.body@)
        } else {
            Err(
                "HNS DoH compatibility resolver returned HTTP "@ + text::decimal(
                    response.status as nat,
                ),
            )
        },
    }
}

pub fn doh_response_body(response: Result<OriginResponse, TransportError>) -> (r: Result<
    Vec<u8>,
    ResolverError,
>)
    ensures
        match r {
            Ok(body) => doh_body(response) == Ok::<_, Seq<char>>(body@),
            Err(error) => {
                &&& doh_body(response) is Err
                &&& error matches ResolverError::DnsTransport(reason) && reason@ == doh_body(
                    response,
                )->Err_0
            },
        },
{
    match response {
        Err(error) => {
            let reason = error.message();
            Err(
                ResolverError::DnsTransport(
                    "HNS DoH compatibility resolver failed: ".to_owned().concat(reason.as_str()),
                ),
            )
        },
        Ok(response) => if response.status == 200 {
            Ok(response.body)
        } else {
            let mut reason = "HNS DoH compatibility resolver returned HTTP ".to_owned();
            text::push_decimal(&mut reason, response.status as u64);
            Err(ResolverError::DnsTransport(reason))
        },
    }
}

/// The answer in a message, if there is one; the sender says by one flag
/// whether it found it secure.
pub open spec fn doh_answer(
    message: Option<MessageView>,
    id: u16,
    qname: dns::Labels,
    qtype: RecordType,
) -> Reply {
    match message {
        Some(message) => if nameserver::answers_query(message, id, qname, qtype) {
            Ok(
                AnswerView {
                    name: qname,
                    records: message.answers,
                    secure: dns::is_authentic(message.flags),
                },
            )
        } else {
            Err(ResolverError::InvalidDnsResponse)
        },
        None => Err(ResolverError::InvalidDnsResponse),
    }
}

pub fn doh_answer_from_body(
    id: u16,
    qname: &DnsName,
    qtype: RecordType,
    body: Option<DnsMessage>,
) -> (r: Result<ResolutionAnswer, ResolverError>)
    ensures
        resolver::answer_reply(r) == doh_answer(
            match body {
                Some(message) => Some(message@),
                None => None,
            },
            id,
            qname@,
            qtype,
        ),
{
    let message = match body {
        Some(message) => message,
        None => {
            return Err(ResolverError::InvalidDnsResponse);
        },
    };
    if !nameserver::response_answers_query(&message, id, qname, qtype) {
        return Err(ResolverError::InvalidDnsResponse);
    }
    Ok(
        ResolutionAnswer {
            name: qname.copy(),
            records: message.answers,
            secure: (message.flags / 32) % 2 == 1,
        },
    )
}

/// Where the fallback was not marked as used, the reply is the first
/// resolver's own, and the fallback was not asked.
pub proof fn law_unmarked_reply_is_the_first_resolvers<P: Resolver, F: Resolver>(
    pre: FallbackView<P, F>,
    request: RequestView,
    reply: Reply,
    post: FallbackView<P, F>,
)
    requires
        resolved_with_fallback(pre, request, reply, post),
        !post.marker.used,
    ensures
        P::resolves(pre.primary, request, reply, post.primary),
        post.fallback == pre.fallback,
        !pre.marker.used,
{
}

/// An answer over HTTPS is secure only where it answers the very question, and
/// its sender vouches for it.
pub proof fn law_unvouched_answer_is_not_secure(
    message: Option<MessageView>,
    id: u16,
    qname: dns::Labels,
    qtype: RecordType,
)
    requires
        doh_answer(message, id, qname, qtype) is Ok,
        doh_answer(message, id, qname, qtype)->Ok_0.secure,
    ensures
        message is Some,
        nameserver::answers_query(message->0, id, qname, qtype),
        dns::is_authentic(message->0.flags),
{
}

/// The failures that have a fallback: no proof, no nameserver that could be asked,
/// and none that gave a valid answer. That a name does not exist is an answer, and
/// stands.
pub proof fn law_which_failures_have_a_fallback(error: ResolverError)
    ensures
        fallback_reason(error) is Some <==> error is ProofUnavailable || error
            is NoNameserverAddress || error is DnsTransport || error is InvalidDnsResponse || error
            is DnssecFailed,
        error is ProofUnavailable ==> fallback_reason(error) == Some(
            "local_hns_proof_unavailable"@,
        ),
        error is NoNameserverAddress ==> fallback_reason(error) == Some(
            "no_verified_nameserver_address"@,
        ),
        error is DnsTransport ==> fallback_reason(error) == Some(
            "authoritative_nameserver_transport_failed"@,
        ),
        error is InvalidDnsResponse ==> fallback_reason(error) == Some(
            "authoritative_nameserver_invalid_response"@,
        ),
        error is DnssecFailed ==> fallback_reason(error) == Some(
            "delegated_dnssec_validation_failed"@,
        ),
{
}

/// Where the first resolver fails for such a reason, the fallback is asked the same
/// and its reply is the reply; that it was used is marked, and its root remembered.
pub proof fn law_failed_resolution_falls_back<P: Resolver, F: Resolver>(
    pre: FallbackView<P, F>,
    request: RequestView,
    error: ResolverError,
    asked: P,
    reply: Reply,
    post: FallbackView<P, F>,
)
    requires
        after_primary(pre, request, Err(error), asked, reply, post),
        error is ProofUnavailable || error is NoNameserverAddress || error is DnsTransport || error
            is InvalidDnsResponse || error is DnssecFailed,
    ensures
        F::resolves(pre.fallback, request, reply, post.fallback),
        post.primary == asked,
        post.marker.used,
        post.roots.dom().contains(cache_root(request.qname)),
        post.roots == pre.roots.insert(
            cache_root(request.qname),
            post.roots[cache_root(request.qname)],
        ),
{
    let root = cache_root(request.qname);
    let reason = fallback_reason(error)->0;
    assert(post.roots[root] == reason);
}

/// What is told of the fallback is why it was used first.
pub proof fn law_first_reason_stays(marker: MarkerView, first: Seq<char>, second: Seq<char>)
    ensures
        marked(marker, first).used,
        marker.reason is None ==> marked(marker, first).reason == Some(first) && marked(
            marked(marker, first),
            second,
        ).reason == Some(first),
        marker.reason is Some ==> marked(marker, first).reason == marker.reason,
{
}

/// What the resolver over HTTPS answers to the question is the answer: all of its
/// records, and secure exactly where it says that it has authenticated them.
pub proof fn law_doh_answer_is_complete(
    message: MessageView,
    id: u16,
    qname: dns::Labels,
    qtype: RecordType,
)
    requires
        nameserver::answers_query(message, id, qname, qtype),
    ensures
        doh_answer(Some(message), id, qname, qtype) matches Ok(answer) && answer.name == qname
            && answer.records == message.answers && (answer.secure <==> message.flags & 0x0020
            != 0),
{
    let flags = message.flags;
    assert((flags / 32) % 2 == 1 <==> flags & 0x0020 != 0) by (bit_vector);
}

/// The query over HTTPS asks for recursion, and for DNSSEC records as any query
/// does.
pub proof fn law_doh_query_asks_for_recursion(id: u16, qname: dns::Labels, qtype: RecordType)
    ensures
        doh_query(id, qname, qtype).flags & 0x0100 != 0,
        doh_query(id, qname, qtype).questions == nameserver::query_for(
            id,
            qname,
            qtype,
            0,
        ).questions,
        doh_query(id, qname, qtype).additionals == nameserver::query_for(
            id,
            qname,
            qtype,
            0,
        ).additionals,
        doh_query(id, qname, qtype).id == id,
{
    assert(0x0100u16 & 0x0100u16 != 0) by (bit_vector);
}

/// A query over HTTPS carries its bytes to the resolver's own host, over TLS, under
/// the rules of the web.
pub proof fn law_doh_query_goes_to_its_resolver(request: types::RequestView, query: Seq<u8>)
    requires
        is_doh_request(request, query),
    ensures
        request.body == query,
        request.scheme == "https"@,
        request.host == "hnsdoh.com"@,
        request.port == 443,
        request.path_and_query == "/dns-query"@,
        request.method == "POST"@,
        request.tls.mode == types::DomainTrustMode::IcannWebPki,
        request.tls.tlsa_records.len() == 0,
        request.headers.contains(("Content-Type"@, "application/dns-message"@)),
        request.headers.contains(("Accept"@, "application/dns-message"@)),
{
    assert(request.headers[0] == ("Accept"@, "application/dns-message"@));
    assert(request.headers[1] == ("Content-Type"@, "application/dns-message"@));
}

/// A response with status 200 gives its body, and no other response does.
pub proof fn law_only_good_responses_are_read(response: OriginResponse)
    ensures
        response.status == 200 ==> doh_body(Ok(response)) == Ok::<_, Seq<char>>(response.body@),
        response.status != 200 ==> doh_body(Ok(response)) is Err,
{
}

} // verus!
