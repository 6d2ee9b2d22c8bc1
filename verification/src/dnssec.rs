//! Resolution under a signed delegation: every record of a secure answer passes
//! the verifier, and a missing name or type is proven missing.
use crate::dns;
use crate::dns::{
    AddressView, DnsMessage, Labels, MessageView, RecordType, RecordView, ResourceRecord,
    ServerAddress,
};
use crate::error::ResolverError;
use crate::name;
use crate::name::DnsName;
use crate::nameserver;
use crate::nameserver::QueryIds;
use crate::resolver;
use crate::resolver::{AnswerView, Reply, ResolutionAnswer};
use vstd::prelude::*;

verus! {

/// The most aliases that are followed for one request.
pub const MAX_CNAME_CHAIN_LEN: usize = 8;

/// The keys of a zone, and the digests in its parent that vouch for them.
pub struct ZoneView {
    pub owner: Labels,
    pub ds: Seq<RecordView>,
    pub dnskey: Seq<RecordView>,
    pub dnskey_rrsig: Seq<RecordView>,
}

/// The keys of a child zone, and the signed digests in the zone above it.
pub struct LinkView {
    pub owner: Labels,
    pub ds: Seq<RecordView>,
    pub ds_rrsig: Seq<RecordView>,
    pub dnskey: Seq<RecordView>,
    pub dnskey_rrsig: Seq<RecordView>,
}

/// The records that deny a name or a type.
pub struct DenialView {
    pub nsec: Seq<RecordView>,
    pub nsec_rrsig: Seq<RecordView>,
    pub nsec3: Seq<RecordView>,
    pub nsec3_rrsig: Seq<RecordView>,
}

pub enum Claim {
    Positive { target: Seq<RecordView>, target_rrsig: Seq<RecordView> },
    NoData { name: Labels, qtype: RecordType, denial: DenialView },
    NameError { name: Labels, encloser: Labels, denial: DenialView },
}

/// What a verifier is asked: whether `claim` holds under the keys of `zone`, or
/// of the child zone that `link` leads to.
pub struct DnssecQuestion {
    pub zone: ZoneView,
    pub link: Option<LinkView>,
    pub claim: Claim,
}

pub struct DelegatedDnssecValidation<'a> {
    pub dnskey_owner: &'a DnsName,
    pub ds_rrset: &'a [ResourceRecord],
    pub dnskey_rrset: &'a [ResourceRecord],
    pub dnskey_rrsig_rrset: &'a [ResourceRecord],
    pub target_rrset: &'a [ResourceRecord],
    pub target_rrsig_rrset: &'a [ResourceRecord],
}

impl<'a> DelegatedDnssecValidation<'a> {
    pub open spec fn question(self) -> DnssecQuestion {
        DnssecQuestion {
            zone: ZoneView {
                owner: self.dnskey_owner@,
                ds: dns::record_views(self.ds_rrset@),
                dnskey: dns::record_views(self.dnskey_rrset@),
                dnskey_rrsig: dns::record_views(self.dnskey_rrsig_rrset@),
            },
            link: None,
            claim: Claim::Positive {
                target: dns::record_views(self.target_rrset@),
                target_rrsig: dns::record_views(self.target_rrsig_rrset@),
            },
        }
    }
}

pub struct DelegatedDnssecNoDataValidation<'a> {
    pub dnskey_owner: &'a DnsName,
    pub ds_rrset: &'a [ResourceRecord],
    pub dnskey_rrset: &'a [ResourceRecord],
    pub dnskey_rrsig_rrset: &'a [ResourceRecord],
    pub query_name: &'a DnsName,
    pub query_type: RecordType,
    pub nsec_rrset: &'a [ResourceRecord],
    pub nsec_rrsig_rrset: &'a [ResourceRecord],
    pub nsec3_rrset: &'a [ResourceRecord],
    pub nsec3_rrsig_rrset: &'a [ResourceRecord],
}

impl<'a> DelegatedDnssecNoDataValidation<'a> {
    pub open spec fn question(self) -> DnssecQuestion {
        DnssecQuestion {
            zone: ZoneView {
                owner: self.dnskey_owner@,
                ds: dns::record_views(self.ds_rrset@),
                dnskey: dns::record_views(self.dnskey_rrset@),
                dnskey_rrsig: dns::record_views(self.dnskey_rrsig_rrset@),
            },
            link: None,
            claim: Claim::NoData {
                name: self.query_name@,
                qtype: self.query_type,
                denial: DenialView {
                    nsec: dns::record_views(self.nsec_rrset@),
                    nsec_rrsig: dns::record_views(self.nsec_rrsig_rrset@),
                    nsec3: dns::record_views(self.nsec3_rrset@),
                    nsec3_rrsig: dns::record_views(self.nsec3_rrsig_rrset@),
                },
            },
        }
    }
}

pub struct DelegatedDnssecNameErrorValidation<'a> {
    pub dnskey_owner: &'a DnsName,
    pub ds_rrset: &'a [ResourceRecord],
    pub dnskey_rrset: &'a [ResourceRecord],
    pub dnskey_rrsig_rrset: &'a [ResourceRecord],
    pub query_name: &'a DnsName,
    pub closest_encloser: &'a DnsName,
    pub nsec_rrset: &'a [ResourceRecord],
    pub nsec_rrsig_rrset: &'a [ResourceRecord],
    pub nsec3_rrset: &'a [ResourceRecord],
    pub nsec3_rrsig_rrset: &'a [ResourceRecord],
}

impl<'a> DelegatedDnssecNameErrorValidation<'a> {
    pub open spec fn question(self) -> DnssecQuestion {
        DnssecQuestion {
            zone: ZoneView {
                owner: self.dnskey_owner@,
                ds: dns::record_views(self.ds_rrset@),
                dnskey: dns::record_views(self.dnskey_rrset@),
                dnskey_rrsig: dns::record_views(self.dnskey_rrsig_rrset@),
            },
            link: None,
            claim: Claim::NameError {
                name: self.query_name@,
                encloser: self.closest_encloser@,
                denial: DenialView {
                    nsec: dns::record_views(self.nsec_rrset@),
                    nsec_rrsig: dns::record_views(self.nsec_rrsig_rrset@),
                    nsec3: dns::record_views(self.nsec3_rrset@),
                    nsec3_rrsig: dns::record_views(self.nsec3_rrsig_rrset@),
                },
            },
        }
    }
}

pub struct DelegatedChildDnssecValidation<'a> {
    pub parent_dnskey_owner: &'a DnsName,
    pub parent_ds_rrset: &'a [ResourceRecord],
    pub parent_dnskey_rrset: &'a [ResourceRecord],
    pub parent_dnskey_rrsig_rrset: &'a [ResourceRecord],
    pub child_dnskey_owner: &'a DnsName,
    pub child_ds_rrset: &'a [ResourceRecord],
    pub child_ds_rrsig_rrset: &'a [ResourceRecord],
    pub child_dnskey_rrset: &'a [ResourceRecord],
    pub child_dnskey_rrsig_rrset: &'a [ResourceRecord],
    pub target_rrset: &'a [ResourceRecord],
    pub target_rrsig_rrset: &'a [ResourceRecord],
}

impl<'a> DelegatedChildDnssecValidation<'a> {
    pub open spec fn question(self) -> DnssecQuestion {
        DnssecQuestion {
            zone: ZoneView {
                owner: self.parent_dnskey_owner@,
                ds: dns::record_views(self.parent_ds_rrset@),
                dnskey: dns::record_views(self.parent_dnskey_rrset@),
                dnskey_rrsig: dns::record_views(self.parent_dnskey_rrsig_rrset@),
            },
            link: Some(
                LinkView {
                    owner: self.child_dnskey_owner@,
                    ds: dns::record_views(self.child_ds_rrset@),
                    ds_rrsig: dns::record_views(self.child_ds_rrsig_rrset@),
                    dnskey: dns::record_views(self.child_dnskey_rrset@),
                    dnskey_rrsig: dns::record_views(self.child_dnskey_rrsig_rrset@),
                },
            ),
            claim: Claim::Positive {
                target: dns::record_views(self.target_rrset@),
                target_rrsig: dns::record_views(self.target_rrsig_rrset@),
            },
        }
    }
}

pub struct DelegatedChildDnssecNoDataValidation<'a> {
    pub parent_dnskey_owner: &'a DnsName,
    pub parent_ds_rrset: &'a [ResourceRecord],
    pub parent_dnskey_rrset: &'a [ResourceRecord],
    pub parent_dnskey_rrsig_rrset: &'a [ResourceRecord],
    pub child_dnskey_owner: &'a DnsName,
    pub child_ds_rrset: &'a [ResourceRecord],
    pub child_ds_rrsig_rrset: &'a [ResourceRecord],
    pub child_dnskey_rrset: &'a [ResourceRecord],
    pub child_dnskey_rrsig_rrset: &'a [ResourceRecord],
    pub query_name: &'a DnsName,
    pub query_type: RecordType,
    pub nsec_rrset: &'a [ResourceRecord],
    pub nsec_rrsig_rrset: &'a [ResourceRecord],
    pub nsec3_rrset: &'a [ResourceRecord],
    pub nsec3_rrsig_rrset: &'a [ResourceRecord],
}

impl<'a> DelegatedChildDnssecNoDataValidation<'a> {
    pub open spec fn question(self) -> DnssecQuestion {
        DnssecQuestion {
            zone: ZoneView {
                owner: self.parent_dnskey_owner@,
                ds: dns::record_views(self.parent_ds_rrset@),
                dnskey: dns::record_views(self.parent_dnskey_rrset@),
                dnskey_rrsig: dns::record_views(self.parent_dnskey_rrsig_rrset@),
            },
            link: Some(
                LinkView {
                    owner: self.child_dnskey_owner@,
                    ds: dns::record_views(self.child_ds_rrset@),
                    ds_rrsig: dns::record_views(self.child_ds_rrsig_rrset@),
                    dnskey: dns::record_views(self.child_dnskey_rrset@),
                    dnskey_rrsig: dns::record_views(self.child_dnskey_rrsig_rrset@),
                },
            ),
            claim: Claim::NoData {
                name: self.query_name@,
                qtype: self.query_type,
                denial: DenialView {
                    nsec: dns::record_views(self.nsec_rrset@),
                    nsec_rrsig: dns::record_views(self.nsec_rrsig_rrset@),
                    nsec3: dns::record_views(self.nsec3_rrset@),
                    nsec3_rrsig: dns::record_views(self.nsec3_rrsig_rrset@),
                },
            },
        }
    }
}

pub struct DelegatedChildDnssecNameErrorValidation<'a> {
    pub parent_dnskey_owner: &'a DnsName,
    pub parent_ds_rrset: &'a [ResourceRecord],
    pub parent_dnskey_rrset: &'a [ResourceRecord],
    pub parent_dnskey_rrsig_rrset: &'a [ResourceRecord],
    pub child_dnskey_owner: &'a DnsName,
    pub child_ds_rrset: &'a [ResourceRecord],
    pub child_ds_rrsig_rrset: &'a [ResourceRecord],
    pub child_dnskey_rrset: &'a [ResourceRecord],
    pub child_dnskey_rrsig_rrset: &'a [ResourceRecord],
    pub query_name: &'a DnsName,
    pub closest_encloser: &'a DnsName,
    pub nsec_rrset: &'a [ResourceRecord],
    pub nsec_rrsig_rrset: &'a [ResourceRecord],
    pub nsec3_rrset: &'a [ResourceRecord],
    pub nsec3_rrsig_rrset: &'a [ResourceRecord],
}

impl<'a> DelegatedChildDnssecNameErrorValidation<'a> {
    pub open spec fn question(self) -> DnssecQuestion {
        DnssecQuestion {
            zone: ZoneView {
                owner: self.parent_dnskey_owner@,
                ds: dns::record_views(self.parent_ds_rrset@),
                dnskey: dns::record_views(self.parent_dnskey_rrset@),
                dnskey_rrsig: dns::record_views(self.parent_dnskey_rrsig_rrset@),
            },
            link: Some(
                LinkView {
                    owner: self.child_dnskey_owner@,
                    ds: dns::record_views(self.child_ds_rrset@),
                    ds_rrsig: dns::record_views(self.child_ds_rrsig_rrset@),
                    dnskey: dns::record_views(self.child_dnskey_rrset@),
                    dnskey_rrsig: dns::record_views(self.child_dnskey_rrsig_rrset@),
                },
            ),
            claim: Claim::NameError {
                name: self.query_name@,
                encloser: self.closest_encloser@,
                denial: DenialView {
                    nsec: dns::record_views(self.nsec_rrset@),
                    nsec_rrsig: dns::record_views(self.nsec_rrsig_rrset@),
                    nsec3: dns::record_views(self.nsec3_rrset@),
                    nsec3_rrsig: dns::record_views(self.nsec3_rrsig_rrset@),
                },
            },
        }
    }
}

/// Decides claims about signed records. `Ok(true)` accepts the claim.
pub trait DelegatedDnssecVerifier: Sized {
    /// Whether the verifier may reply `reply` to `question`.
    /// By default anything may.
    open spec fn judges(self, question: DnssecQuestion, reply: Result<bool, ResolverError>) -> bool {
        true
    }

    fn validate_positive_rrset(&self, input: DelegatedDnssecValidation<'_>) -> (r: Result<
        bool,
        ResolverError,
    >)
        ensures
            self.judges(input.question(), r),
    ;

    fn validate_no_data(&self, input: DelegatedDnssecNoDataValidation<'_>) -> (r: Result<
        bool,
        ResolverError,
    >)
        ensures
            self.judges(input.question(), r),
    ;

    fn validate_name_error(&self, input: DelegatedDnssecNameErrorValidation<'_>) -> (r: Result<
        bool,
        ResolverError,
    >)
        ensures
            self.judges(input.question(), r),
    ;

    fn validate_child_positive_rrset(&self, input: DelegatedChildDnssecValidation<'_>) -> (r:
        Result<bool, ResolverError>)
        ensures
            self.judges(input.question(), r),
    ;

    fn validate_child_no_data(&self, input: DelegatedChildDnssecNoDataValidation<'_>) -> (r: Result<
        bool,
        ResolverError,
    >)
        ensures
            self.judges(input.question(), r),
    ;

    fn validate_child_name_error(&self, input: DelegatedChildDnssecNameErrorValidation<'_>) -> (r:
        Result<bool, ResolverError>)
        ensures
            self.judges(input.question(), r),
    ;
}

/// Carries a query to a server and brings back its reply.
pub trait DnsTransport: Sized {
    /// Whether, asked over UDP in state `pre`, the transport may bring back
    /// `reply` and be left in state `post`.
    /// By default anything may.
    open spec fn exchanges_udp(
        pre: Self,
        server: AddressView,
        query: MessageView,
        reply: Result<MessageView, ResolverError>,
        post: Self,
    ) -> bool {
        true
    }

    /// The same over TCP.
    /// By default anything may.
    open spec fn exchanges_tcp(
        pre: Self,
        server: AddressView,
        query: MessageView,
        reply: Result<MessageView, ResolverError>,
        post: Self,
    ) -> bool {
        true
    }

    fn exchange_udp(&mut self, server: &ServerAddress, query: &DnsMessage) -> (r: Result<
        DnsMessage,
        ResolverError,
    >)
        ensures
            Self::exchanges_udp(
                *old(self),
                server@,
                query@,
                nameserver::message_reply(r),
                *final(self),
            ),
    ;

    fn exchange_tcp(&mut self, server: &ServerAddress, query: &DnsMessage) -> (r: Result<
        DnsMessage,
        ResolverError,
    >)
        ensures
            Self::exchanges_tcp(
                *old(self),
                server@,
                query@,
                nameserver::message_reply(r),
                *final(self),
            ),
    ;
}

/// A transport together with the identifiers of the queries sent over it.
pub struct Wire<T> {
    pub transport: T,
    pub ids: QueryIds,
}

/// Whether a failed or malformed UDP exchange is tried again over TCP.
pub open spec fn retries_over_tcp(error: ResolverError) -> bool {
    error is DnsTransport || error is InvalidDnsResponse
}

pub fn dns_query_should_retry_tcp(error: &ResolverError) -> (r: bool)
    ensures
        r == retries_over_tcp(*error),
{
    match error {
        ResolverError::DnsTransport(_) | ResolverError::InvalidDnsResponse => true,
        _ => false,
    }
}

/// Whether the outcome of the UDP exchange calls for TCP.
pub open spec fn needs_tcp(reply: Result<MessageView, ResolverError>) -> bool {
    match reply {
        Ok(message) => dns::is_truncated(message.flags),
        Err(error) => retries_over_tcp(error),
    }
}

/// A truncated message is no answer over TCP.
pub open spec fn whole_reply(reply: Result<MessageView, ResolverError>) -> Result<
    MessageView,
    ResolverError,
> {
    match reply {
        Ok(message) => if dns::is_truncated(message.flags) {
            Err(ResolverError::InvalidDnsResponse)
        } else {
            Ok(message)
        },
        Err(error) => Err(error),
    }
}

/// The query that an exchange began with `udp` and was settled by `tcp`, where
/// the first reply called for it.
pub open spec fn queried_via<T: DnsTransport>(
    pre: Wire<T>,
    server: AddressView,
    qname: Labels,
    qtype: RecordType,
    udp: Result<MessageView, ResolverError>,
    mid: T,
    tcp: Result<MessageView, ResolverError>,
    reply: Result<MessageView, ResolverError>,
    post: Wire<T>,
) -> bool {
    let id = nameserver::id_after(pre.ids.last);
    let query = nameserver::query_for(id, qname, qtype, 0);
    let first = nameserver::checked_reply(udp, id, qname, qtype);
    &&& T::exchanges_udp(pre.transport, server, query, udp, mid)
    &&& post.ids.last == id
    &&& if needs_tcp(first) {
        &&& T::exchanges_tcp(mid, server, query, tcp, post.transport)
        &&& reply == whole_reply(nameserver::checked_reply(tcp, id, qname, qtype))
    } else {
        &&& post.transport == mid
        &&& reply == first
    }
}

/// Whether a query to `server` over the wire in state `pre` may end in `reply`
/// and leave the wire in state `post`.
pub open spec fn queried<T: DnsTransport>(
    pre: Wire<T>,
    server: AddressView,
    qname: Labels,
    qtype: RecordType,
    reply: Result<MessageView, ResolverError>,
    post: Wire<T>,
) -> bool {
    exists|
        udp: Result<MessageView, ResolverError>,
        mid: T,
        tcp: Result<MessageView, ResolverError>,
    |
        queried_via(pre, server, qname, qtype, udp, mid, tcp, reply, post)
}

fn dns_query_tcp<T: DnsTransport>(
    transport: &mut T,
    server: &ServerAddress,
    id: u16,
    qname: &DnsName,
    qtype: RecordType,
    query: &DnsMessage,
) -> (r: (Result<DnsMessage, ResolverError>, Ghost<Result<MessageView, ResolverError>>))
    ensures
        T::exchanges_tcp(*old(transport), server@, query@, r.1@, *final(transport)),
        nameserver::message_reply(r.0) == whole_reply(
            nameserver::checked_reply(r.1@, id, qname@, qtype),
        ),
{
    let reply = transport.exchange_tcp(server, query);
    let ghost raw = nameserver::message_reply(reply);
    match nameserver::parse_dns_response(id, qname, qtype, reply) {
        Ok(message) => {
            if (message.flags / 512) % 2 == 1 {
                (Err(ResolverError::InvalidDnsResponse), Ghost(raw))
            } else {
                (Ok(message), Ghost(raw))
            }
        },
        Err(error) => (Err(error), Ghost(raw)),
    }
}

/// Asks `server` for a name and type: over UDP first, over TCP where that
/// fails, is malformed or is truncated.
pub fn dns_query<T: DnsTransport>(
    wire: &mut Wire<T>,
    server: &ServerAddress,
    qname: &DnsName,
    qtype: RecordType,
) -> (r: Result<DnsMessage, ResolverError>)
    ensures
        queried(*old(wire), server@, qname@, qtype, nameserver::message_reply(r), *final(wire)),
        r matches Ok(message) ==> message@.questions.len() == 1,
{
    let ghost pre = *wire;
    let id: u16 = nameserver::next_dns_query_id(&mut wire.ids);
    let query = nameserver::build_dns_query(id, qname, qtype);
    let udp = wire.transport.exchange_udp(server, &query);
    let ghost raw = nameserver::message_reply(udp);
    let ghost mid = wire.transport;
    let first = nameserver::parse_dns_response(id, qname, qtype, udp);
    let retry = match &first {
        Ok(message) => (message.flags / 512) % 2 == 1,
        Err(error) => dns_query_should_retry_tcp(error),
    };
    if retry {
        let (r, Ghost(tcp)) = dns_query_tcp(
            &mut wire.transport,
            server,
            id,
            qname,
            qtype,
            &query,
        );
        assert(queried_via(
            pre,
            server@,
            qname@,
            qtype,
            raw,
            mid,
            tcp,
            nameserver::message_reply(r),
            *wire,
        ));
        return r;
    }
    assert(queried_via(
        pre,
        server@,
        qname@,
        qtype,
        raw,
        mid,
        raw,
        nameserver::message_reply(first),
        *wire,
    ));
    first
}

/// The keys of a zone.
pub struct ZoneKeys {
    pub owner: DnsName,
    pub ds_rrset: Vec<ResourceRecord>,
    pub dnskey_rrset: Vec<ResourceRecord>,
    pub dnskey_rrsig_rrset: Vec<ResourceRecord>,
}

impl View for ZoneKeys {
    type V = ZoneView;

    open spec fn view(&self) -> ZoneView {
        ZoneView {
            owner: self.owner@,
            ds: dns::record_views(self.ds_rrset@),
            dnskey: dns::record_views(self.dnskey_rrset@),
            dnskey_rrsig: dns::record_views(self.dnskey_rrsig_rrset@),
        }
    }
}

/// The keys of a child zone.
pub struct ChildKeys {
    pub owner: DnsName,
    pub ds_rrset: Vec<ResourceRecord>,
    pub ds_rrsig_rrset: Vec<ResourceRecord>,
    pub dnskey_rrset: Vec<ResourceRecord>,
    pub dnskey_rrsig_rrset: Vec<ResourceRecord>,
}

impl View for ChildKeys {
    type V = LinkView;

    open spec fn view(&self) -> LinkView {
        LinkView {
            owner: self.owner@,
            ds: dns::record_views(self.ds_rrset@),
            ds_rrsig: dns::record_views(self.ds_rrsig_rrset@),
            dnskey: dns::record_views(self.dnskey_rrset@),
            dnskey_rrsig: dns::record_views(self.dnskey_rrsig_rrset@),
        }
    }
}

/// Whose keys vouch for an answer: those of a zone, or of the child zone that
/// it vouches for in turn.
pub struct TrustView {
    pub zone: ZoneView,
    pub link: Option<LinkView>,
}

impl TrustView {
    /// The zone that the answer has to stay in.
    pub open spec fn apex(self) -> Labels {
        match self.link {
            Some(link) => link.owner,
            None => self.zone.owner,
        }
    }

    /// Whether the answering zone has published keys and signatures over them.
    pub open spec fn has_keys(self) -> bool {
        match self.link {
            Some(link) => link.dnskey.len() > 0 && link.dnskey_rrsig.len() > 0,
            None => self.zone.dnskey.len() > 0 && self.zone.dnskey_rrsig.len() > 0,
        }
    }

    pub open spec fn asks(self, claim: Claim) -> DnssecQuestion {
        DnssecQuestion { zone: self.zone, link: self.link, claim }
    }
}

pub struct Trust {
    pub zone: ZoneKeys,
    pub link: Option<ChildKeys>,
}

impl View for Trust {
    type V = TrustView;

    open spec fn view(&self) -> TrustView {
        TrustView {
            zone: self.zone@,
            link: match self.link {
                Some(link) => Some(link@),
                None => None,
            },
        }
    }
}

impl Trust {
    pub fn apex(&self) -> (r: &DnsName)
        ensures
            r@ == self@.apex(),
    {
        match &self.link {
            Some(link) => &link.owner,
            None => &self.zone.owner,
        }
    }

    pub fn has_keys(&self) -> (r: bool)
        ensures
            r == self@.has_keys(),
    {
        match &self.link {
            Some(link) => link.dnskey_rrset.len() > 0 && link.dnskey_rrsig_rrset.len() > 0,
            None => self.zone.dnskey_rrset.len() > 0 && self.zone.dnskey_rrsig_rrset.len() > 0,
        }
    }
}

fn ask_positive<V: DelegatedDnssecVerifier>(
    verifier: &V,
    trust: &Trust,
    target: &Vec<ResourceRecord>,
    target_rrsig: &Vec<ResourceRecord>,
) -> (r: Result<bool, ResolverError>)
    ensures
        verifier.judges(
            trust@.asks(
                Claim::Positive {
                    target: dns::record_views(target@),
                    target_rrsig: dns::record_views(target_rrsig@),
                },
            ),
            r,
        ),
{
    match &trust.link {
        Some(link) => verifier.validate_child_positive_rrset(
            DelegatedChildDnssecValidation {
                parent_dnskey_owner: &trust.zone.owner,
                parent_ds_rrset: trust.zone.ds_rrset.as_slice(),
                parent_dnskey_rrset: trust.zone.dnskey_rrset.as_slice(),
                parent_dnskey_rrsig_rrset: trust.zone.dnskey_rrsig_rrset.as_slice(),
                child_dnskey_owner: &link.owner,
                child_ds_rrset: link.ds_rrset.as_slice(),
                child_ds_rrsig_rrset: link.ds_rrsig_rrset.as_slice(),
                child_dnskey_rrset: link.dnskey_rrset.as_slice(),
                child_dnskey_rrsig_rrset: link.dnskey_rrsig_rrset.as_slice(),
                target_rrset: target.as_slice(),
                target_rrsig_rrset: target_rrsig.as_slice(),
            },
        ),
        None => verifier.validate_positive_rrset(
            DelegatedDnssecValidation {
                dnskey_owner: &trust.zone.owner,
                ds_rrset: trust.zone.ds_rrset.as_slice(),
                dnskey_rrset: trust.zone.dnskey_rrset.as_slice(),
                dnskey_rrsig_rrset: trust.zone.dnskey_rrsig_rrset.as_slice(),
                target_rrset: target.as_slice(),
                target_rrsig_rrset: target_rrsig.as_slice(),
            },
        ),
    }
}

/// The records of a response that may deny `name`, where only records at `at`
/// count as plain denials (`None`: records of any owner).
pub open spec fn denial_in(response: MessageView, at: Option<Labels>) -> DenialView {
    let records = dns::proof_records(response);
    DenialView {
        nsec: match at {
            Some(name) => dns::rrset(records, name, RecordType::Nsec),
            None => dns::of_type(records, RecordType::Nsec),
        },
        nsec_rrsig: dns::of_type(records, RecordType::Rrsig),
        nsec3: dns::of_type(records, RecordType::Nsec3),
        nsec3_rrsig: dns::of_type(records, RecordType::Rrsig),
    }
}

fn ask_no_data<V: DelegatedDnssecVerifier>(
    verifier: &V,
    trust: &Trust,
    name: &DnsName,
    qtype: RecordType,
    response: &DnsMessage,
) -> (r: Result<bool, ResolverError>)
    ensures
        verifier.judges(
            trust@.asks(
                Claim::NoData {
                    name: name@,
                    qtype,
                    denial: denial_in(response@, Some(name@)),
                },
            ),
            r,
        ),
{
    let records = dns::combined_response_records(response);
    let nsec = dns::records_for(&records, name, RecordType::Nsec);
    let rrsig = dns::records_of_type(&records, RecordType::Rrsig);
    let nsec3 = dns::records_of_type(&records, RecordType::Nsec3);
    match &trust.link {
        Some(link) => verifier.validate_child_no_data(
            DelegatedChildDnssecNoDataValidation {
                parent_dnskey_owner: &trust.zone.owner,
                parent_ds_rrset: trust.zone.ds_rrset.as_slice(),
                parent_dnskey_rrset: trust.zone.dnskey_rrset.as_slice(),
                parent_dnskey_rrsig_rrset: trust.zone.dnskey_rrsig_rrset.as_slice(),
                child_dnskey_owner: &link.owner,
                child_ds_rrset: link.ds_rrset.as_slice(),
                child_ds_rrsig_rrset: link.ds_rrsig_rrset.as_slice(),
                child_dnskey_rrset: link.dnskey_rrset.as_slice(),
                child_dnskey_rrsig_rrset: link.dnskey_rrsig_rrset.as_slice(),
                query_name: name,
                query_type: qtype,
                nsec_rrset: nsec.as_slice(),
                nsec_rrsig_rrset: rrsig.as_slice(),
                nsec3_rrset: nsec3.as_slice(),
                nsec3_rrsig_rrset: rrsig.as_slice(),
            },
        ),
        None => verifier.validate_no_data(
            DelegatedDnssecNoDataValidation {
                dnskey_owner: &trust.zone.owner,
                ds_rrset: trust.zone.ds_rrset.as_slice(),
                dnskey_rrset: trust.zone.dnskey_rrset.as_slice(),
                dnskey_rrsig_rrset: trust.zone.dnskey_rrsig_rrset.as_slice(),
                query_name: name,
                query_type: qtype,
                nsec_rrset: nsec.as_slice(),
                nsec_rrsig_rrset: rrsig.as_slice(),
                nsec3_rrset: nsec3.as_slice(),
                nsec3_rrsig_rrset: rrsig.as_slice(),
            },
        ),
    }
}

fn ask_name_error<V: DelegatedDnssecVerifier>(
    verifier: &V,
    trust: &Trust,
    name: &DnsName,
    encloser: &DnsName,
    response: &DnsMessage,
) -> (r: Result<bool, ResolverError>)
    ensures
        verifier.judges(
            trust@.asks(
                Claim::NameError {
                    name: name@,
                    encloser: encloser@,
                    denial: denial_in(response@, None),
                },
            ),
            r,
        ),
{
    let records = dns::combined_response_records(response);
    let nsec = dns::records_of_type(&records, RecordType::Nsec);
    let rrsig = dns::records_of_type(&records, RecordType::Rrsig);
    let nsec3 = dns::records_of_type(&records, RecordType::Nsec3);
    match &trust.link {
        Some(link) => verifier.validate_child_name_error(
            DelegatedChildDnssecNameErrorValidation {
                parent_dnskey_owner: &trust.zone.owner,
                parent_ds_rrset: trust.zone.ds_rrset.as_slice(),
                parent_dnskey_rrset: trust.zone.dnskey_rrset.as_slice(),
                parent_dnskey_rrsig_rrset: trust.zone.dnskey_rrsig_rrset.as_slice(),
                child_dnskey_owner: &link.owner,
                child_ds_rrset: link.ds_rrset.as_slice(),
                child_ds_rrsig_rrset: link.ds_rrsig_rrset.as_slice(),
                child_dnskey_rrset: link.dnskey_rrset.as_slice(),
                child_dnskey_rrsig_rrset: link.dnskey_rrsig_rrset.as_slice(),
                query_name: name,
                closest_encloser: encloser,
                nsec_rrset: nsec.as_slice(),
                nsec_rrsig_rrset: rrsig.as_slice(),
                nsec3_rrset: nsec3.as_slice(),
                nsec3_rrsig_rrset: rrsig.as_slice(),
            },
        ),
        None => verifier.validate_name_error(
            DelegatedDnssecNameErrorValidation {
                dnskey_owner: &trust.zone.owner,
                ds_rrset: trust.zone.ds_rrset.as_slice(),
                dnskey_rrset: trust.zone.dnskey_rrset.as_slice(),
                dnskey_rrsig_rrset: trust.zone.dnskey_rrsig_rrset.as_slice(),
                query_name: name,
                closest_encloser: encloser,
                nsec_rrset: nsec.as_slice(),
                nsec_rrsig_rrset: rrsig.as_slice(),
                nsec3_rrset: nsec3.as_slice(),
                nsec3_rrsig_rrset: rrsig.as_slice(),
            },
        ),
    }
}

/// A verdict as it is used: anything but acceptance is an error.
pub open spec fn accepted(verdict: Result<bool, ResolverError>) -> Result<(), ResolverError> {
    match verdict {
        Ok(true) => Ok(()),
        Ok(false) => Err(ResolverError::DnssecFailed),
        Err(error) => Err(error),
    }
}

/// Whether `outcome` may come of holding a record set of `owner` against its
/// signatures in `answers`.
pub open spec fn rrset_checked<V: DelegatedDnssecVerifier>(
    verifier: V,
    trust: TrustView,
    owner: Labels,
    target: Seq<RecordView>,
    answers: Seq<RecordView>,
    outcome: Result<(), ResolverError>,
) -> bool {
    let signatures = dns::rrset(answers, owner, RecordType::Rrsig);
    if signatures.len() == 0 {
        outcome == Err::<(), _>(ResolverError::DnssecFailed)
    } else {
        exists|verdict: Result<bool, ResolverError>|
            #[trigger] verifier.judges(
                trust.asks(Claim::Positive { target, target_rrsig: signatures }),
                verdict,
            ) && outcome == accepted(verdict)
    }
}

/// Holds a record set against its signatures in the response.
pub fn validate_secure_rrset<V: DelegatedDnssecVerifier>(
    verifier: &V,
    trust: &Trust,
    owner: &DnsName,
    target: &Vec<ResourceRecord>,
    response: &DnsMessage,
) -> (r: Result<(), ResolverError>)
    ensures
        rrset_checked(
            *verifier,
            trust@,
            owner@,
            dns::record_views(target@),
            response@.answers,
            r,
        ),
{
    let signatures = dns::records_for(&response.answers, owner, RecordType::Rrsig);
    assert(dns::record_views(signatures@).len() == signatures@.len());
    if signatures.len() == 0 {
        return Err(ResolverError::DnssecFailed);
    }
    match ask_positive(verifier, trust, target, &signatures) {
        Ok(true) => Ok(()),
        Ok(false) => Err(ResolverError::DnssecFailed),
        Err(error) => Err(error),
    }
}

/// The answer for a proven absence: the aliases that led there, and no more.
pub open spec fn absent(
    name: Labels,
    prefix: Seq<RecordView>,
    outcome: Result<(), ResolverError>,
) -> Reply {
    match outcome {
        Ok(_) => Ok(AnswerView { name, records: prefix, secure: true }),
        Err(error) => Err(error),
    }
}

/// Whether `reply` may come of a response that holds no record of the type. A
/// zone of its own has to show its keys first; for a child it is the verifier who
/// asks for them.
pub open spec fn no_data_checked<V: DelegatedDnssecVerifier>(
    verifier: V,
    trust: TrustView,
    name: Labels,
    qtype: RecordType,
    response: MessageView,
    prefix: Seq<RecordView>,
    reply: Reply,
) -> bool {
    if trust.link is None && !trust.has_keys() {
        reply == Err::<AnswerView, _>(ResolverError::DnssecFailed)
    } else {
        exists|verdict: Result<bool, ResolverError>|
            #[trigger] verifier.judges(
                trust.asks(
                    Claim::NoData { name, qtype, denial: denial_in(response, Some(name)) },
                ),
                verdict,
            ) && reply == absent(name, prefix, accepted(verdict))
    }
}

pub fn resolve_secure_no_data<V: DelegatedDnssecVerifier>(
    verifier: &V,
    trust: &Trust,
    name: &DnsName,
    qtype: RecordType,
    response: &DnsMessage,
    prefix: Vec<ResourceRecord>,
) -> (r: Result<ResolutionAnswer, ResolverError>)
    ensures
        no_data_checked(
            *verifier,
            trust@,
            name@,
            qtype,
            response@,
            dns::record_views(prefix@),
            resolver::answer_reply(r),
        ),
{
    if trust.link.is_none() && !trust.has_keys() {
        return Err(ResolverError::DnssecFailed);
    }
    match ask_no_data(verifier, trust, name, qtype, response) {
        Ok(true) => Ok(ResolutionAnswer { name: name.copy(), records: prefix, secure: true }),
        Ok(false) => Err(ResolverError::DnssecFailed),
        Err(error) => Err(error),
    }
}

/// Whether `reply` may come of trying the candidates `enclosers[i..]` in turn:
/// the first that the verifier accepts proves the name missing.
pub open spec fn name_error_tried<V: DelegatedDnssecVerifier>(
    verifier: V,
    trust: TrustView,
    name: Labels,
    response: MessageView,
    prefix: Seq<RecordView>,
    enclosers: Seq<Labels>,
    i: nat,
    reply: Reply,
) -> bool
    decreases enclosers.len() - i,
{
    if i >= enclosers.len() {
        reply == Err::<AnswerView, _>(ResolverError::DnssecFailed)
    } else {
        exists|verdict: Result<bool, ResolverError>|
            #[trigger] verifier.judges(
                trust.asks(
                    Claim::NameError {
                        name,
                        encloser: enclosers[i as int],
                        denial: denial_in(response, None),
                    },
                ),
                verdict,
            ) && match verdict {
                Ok(true) => reply == Ok::<_, ResolverError>(
                    AnswerView { name, records: prefix, secure: true },
                ),
                Ok(false) => name_error_tried(
                    verifier,
                    trust,
                    name,
                    response,
                    prefix,
                    enclosers,
                    i + 1,
                    reply,
                ),
                Err(error) => reply == Err::<AnswerView, _>(error),
            }
    }
}

/// Whether `reply` may come of a response that says the name does not exist.
pub open spec fn name_error_checked<V: DelegatedDnssecVerifier>(
    verifier: V,
    trust: TrustView,
    name: Labels,
    response: MessageView,
    prefix: Seq<RecordView>,
    reply: Reply,
) -> bool {
    if !trust.has_keys() {
        reply == Err::<AnswerView, _>(ResolverError::DnssecFailed)
    } else {
        name_error_tried(
            verifier,
            trust,
            name,
            response,
            prefix,
            nameserver::enclosers(name, trust.apex()),
            0,
            reply,
        )
    }
}

fn try_enclosers<V: DelegatedDnssecVerifier>(
    verifier: &V,
    trust: &Trust,
    name: &DnsName,
    response: &DnsMessage,
    prefix: Vec<ResourceRecord>,
    enclosers: &Vec<DnsName>,
    i: usize,
) -> (r: Result<ResolutionAnswer, ResolverError>)
    requires
        i <= enclosers.len(),
    ensures
        name_error_tried(
            *verifier,
            trust@,
            name@,
            response@,
            dns::record_views(prefix@),
            nameserver::name_views(enclosers@),
            i as nat,
            resolver::answer_reply(r),
        ),
    decreases enclosers.len() - i,
{
    if i >= enclosers.len() {
        return Err(ResolverError::DnssecFailed);
    }
    assert(nameserver::name_views(enclosers@)[i as int] == enclosers@[i as int]@);
    match ask_name_error(verifier, trust, name, &enclosers[i], response) {
        Ok(true) => Ok(ResolutionAnswer { name: name.copy(), records: prefix, secure: true }),
        Ok(false) => try_enclosers(verifier, trust, name, response, prefix, enclosers, i + 1),
        Err(error) => Err(error),
    }
}

pub fn resolve_secure_name_error<V: DelegatedDnssecVerifier>(
    verifier: &V,
    trust: &Trust,
    name: &DnsName,
    response: &DnsMessage,
    prefix: Vec<ResourceRecord>,
) -> (r: Result<ResolutionAnswer, ResolverError>)
    ensures
        name_error_checked(
            *verifier,
            trust@,
            name@,
            response@,
            dns::record_views(prefix@),
            resolver::answer_reply(r),
        ),
{
    if !trust.has_keys() {
        return Err(ResolverError::DnssecFailed);
    }
    let enclosers = nameserver::closest_encloser_candidates(name, trust.apex());
    try_enclosers(verifier, trust, name, response, prefix, &enclosers, 0)
}

/// The denial that is put before the verifier is the response's own, whole and
/// unmixed: every NSEC3 record and every signature of its answer and authority
/// sections stands in it, and so does every NSEC record, or every one at the
/// name where a name is given; nothing else does.
pub proof fn law_denial_holds_every_denying_record(
    response: MessageView,
    at: Option<Labels>,
    record: RecordView,
)
    ensures
        ({
            let denial = denial_in(response, at);
            let sent = response.answers.contains(record) || response.authorities.contains(record);
            &&& denial.nsec3.contains(record) <==> sent && record.record_type == RecordType::Nsec3
            &&& denial.nsec3_rrsig.contains(record) <==> sent && record.record_type
                == RecordType::Rrsig
            &&& denial.nsec_rrsig.contains(record) <==> sent && record.record_type
                == RecordType::Rrsig
            &&& at is None ==> (denial.nsec.contains(record) <==> sent && record.record_type
                == RecordType::Nsec)
            &&& at is Some ==> (denial.nsec.contains(record) <==> sent && record.record_type
                == RecordType::Nsec && record.name == at->0)
        }),
{
    let records = dns::proof_records(response);
    assert(records.contains(record) <==> response.answers.contains(record)
        || response.authorities.contains(record)) by {
        if response.answers.contains(record) {
            let i = choose|i: int|
                0 <= i < response.answers.len() && response.answers[i] == record;
            assert(records[i] == record);
        }
        if response.authorities.contains(record) {
            let i = choose|i: int|
                0 <= i < response.authorities.len() && response.authorities[i] == record;
            assert(records[response.answers.len() + i] == record);
        }
    }
    dns::law_records_of_a_type_are_complete(records, RecordType::Nsec3, record);
    dns::law_records_of_a_type_are_complete(records, RecordType::Rrsig, record);
    dns::law_records_of_a_type_are_complete(records, RecordType::Nsec, record);
    if let Some(name) = at {
        dns::law_rrset_is_complete(records, name, RecordType::Nsec, record);
    }
}

/// Whether a denial holds a record of a response, if it is a denying one: of NSEC,
/// where a name is given, one at the name.
pub open spec fn holds_if_denying(
    denial: DenialView,
    response: MessageView,
    at: Option<Labels>,
    record: RecordView,
) -> bool {
    response.answers.contains(record) || response.authorities.contains(record) ==> {
        &&& record.record_type == RecordType::Nsec3 ==> denial.nsec3.contains(record)
        &&& record.record_type == RecordType::Rrsig ==> denial.nsec_rrsig.contains(record)
            && denial.nsec3_rrsig.contains(record)
        &&& record.record_type == RecordType::Nsec && (at is None || record.name == at->0)
            ==> denial.nsec.contains(record)
    }
}

/// Whether a denial holds the denying records of a response.
pub open spec fn denies_with_all(
    denial: DenialView,
    response: MessageView,
    at: Option<Labels>,
) -> bool {
    forall|record: RecordView| #[trigger] holds_if_denying(denial, response, at, record)
}

proof fn lemma_denies_with_all(response: MessageView, at: Option<Labels>)
    ensures
        denies_with_all(denial_in(response, at), response, at),
{
    assert forall|record: RecordView| #[trigger]
        holds_if_denying(denial_in(response, at), response, at, record) by {
        law_denial_holds_every_denying_record(response, at, record);
    }
}

/// That a record is missing is for the verifier to say, who is shown the keys,
/// the name, the type and every denying record of the response: where the
/// verifier agrees the answer is secure and holds only the aliases that led
/// there, else there is none.
pub proof fn law_absence_is_the_verifiers_to_say<V: DelegatedDnssecVerifier>(
    verifier: V,
    trust: TrustView,
    name: Labels,
    qtype: RecordType,
    response: MessageView,
    prefix: Seq<RecordView>,
    reply: Reply,
)
    requires
        no_data_checked(verifier, trust, name, qtype, response, prefix, reply),
        trust.link is Some || (trust.zone.dnskey.len() > 0 && trust.zone.dnskey_rrsig.len() > 0),
    ensures
        exists|denial: DenialView, verdict: Result<bool, ResolverError>|
            {
                &&& denies_with_all(denial, response, Some(name))
                &&& #[trigger] verifier.judges(
                    (DnssecQuestion {
                        zone: trust.zone,
                        link: trust.link,
                        claim: Claim::NoData { name, qtype, denial },
                    }),
                    verdict,
                )
                &&& reply == match verdict {
                    Ok(true) => Ok::<AnswerView, ResolverError>(
                        AnswerView { name, records: prefix, secure: true },
                    ),
                    Ok(false) => Err(ResolverError::DnssecFailed),
                    Err(error) => Err(error),
                }
            },
{
    let denial = denial_in(response, Some(name));
    lemma_denies_with_all(response, Some(name));
    let verdict = choose|verdict: Result<bool, ResolverError>|
        #[trigger] verifier.judges(
            trust.asks(Claim::NoData { name, qtype, denial }),
            verdict,
        ) && reply == absent(name, prefix, accepted(verdict));
    assert(verifier.judges(trust.asks(Claim::NoData { name, qtype, denial }), verdict));
    assert(trust.asks(Claim::NoData { name, qtype, denial }) == (DnssecQuestion {
        zone: trust.zone,
        link: trust.link,
        claim: Claim::NoData { name, qtype, denial },
    }));
}

/// That a name is missing is for the verifier to say, for one of the names above
/// it within the zone: an answer stands only where the verifier agrees of one of
/// them, shown the keys and every denying record of the response.
pub proof fn law_missing_name_is_the_verifiers_to_say<V: DelegatedDnssecVerifier>(
    verifier: V,
    trust: TrustView,
    name: Labels,
    response: MessageView,
    prefix: Seq<RecordView>,
    enclosers: Seq<Labels>,
    i: nat,
    reply: Reply,
)
    requires
        name_error_tried(verifier, trust, name, response, prefix, enclosers, i, reply),
        reply is Ok,
    ensures
        reply == Ok::<AnswerView, ResolverError>(AnswerView { name, records: prefix, secure: true }),
        exists|k: int, denial: DenialView|
            {
                &&& i <= k < enclosers.len()
                &&& #[trigger] denies_with_all(denial, response, None)
                &&& verifier.judges(
                    (DnssecQuestion {
                        zone: trust.zone,
                        link: trust.link,
                        claim: Claim::NameError { name, encloser: #[trigger] enclosers[k], denial },
                    }),
                    Ok(true),
                )
            },
    decreases enclosers.len() - i,
{
    let denial = denial_in(response, None);
    lemma_denies_with_all(response, None);
    let question = DnssecQuestion {
        zone: trust.zone,
        link: trust.link,
        claim: Claim::NameError { name, encloser: enclosers[i as int], denial },
    };
    assert(trust.asks(Claim::NameError { name, encloser: enclosers[i as int], denial }) == question);
    let verdict = choose|verdict: Result<bool, ResolverError>|
        #[trigger] verifier.judges(question, verdict) && match verdict {
            Ok(true) => reply == Ok::<_, ResolverError>(
                AnswerView { name, records: prefix, secure: true },
            ),
            Ok(false) => name_error_tried(
                verifier,
                trust,
                name,
                response,
                prefix,
                enclosers,
                i + 1,
                reply,
            ),
            Err(error) => reply == Err::<AnswerView, _>(error),
        };
    if verdict == Ok::<bool, ResolverError>(false) {
        law_missing_name_is_the_verifiers_to_say(
            verifier,
            trust,
            name,
            response,
            prefix,
            enclosers,
            i + 1,
            reply,
        );
    } else {
        assert(verifier.judges(question, Ok(true)));
        assert(denies_with_all(denial, response, None));
        assert(enclosers[i as int] == enclosers[i as int]);
    }
}

/// A reply that is used was not cut short, and answers the query that was sent.
pub proof fn law_used_reply_is_whole<T: DnsTransport>(
    pre: Wire<T>,
    server: AddressView,
    qname: Labels,
    qtype: RecordType,
    message: MessageView,
    post: Wire<T>,
)
    requires
        queried(pre, server, qname, qtype, Ok(message), post),
    ensures
        message.flags & 0x0200 == 0,
        nameserver::answers_query(message, post.ids.last, qname, qtype),
        post.ids.last as int == (pre.ids.last as int + 1) % 65_536,
{
    dns::law_flag_word(message.flags);
    let (udp, mid, tcp) = choose|
        udp: Result<MessageView, ResolverError>,
        mid: T,
        tcp: Result<MessageView, ResolverError>,
    | #[trigger]
        queried_via(pre, server, qname, qtype, udp, mid, tcp, Ok(message), post);
    assert(queried_via(pre, server, qname, qtype, udp, mid, tcp, Ok(message), post));
}

/// A whole reply over UDP that answers the query is used as it came, and nothing
/// goes over TCP.
pub proof fn law_whole_reply_is_used<T: DnsTransport>(
    pre: Wire<T>,
    server: AddressView,
    qname: Labels,
    qtype: RecordType,
    message: MessageView,
    mid: T,
    tcp: Result<MessageView, ResolverError>,
    reply: Result<MessageView, ResolverError>,
    post: Wire<T>,
)
    requires
        queried_via(pre, server, qname, qtype, Ok(message), mid, tcp, reply, post),
        nameserver::answers_query(message, nameserver::id_after(pre.ids.last), qname, qtype),
        message.flags & 0x0200 == 0,
    ensures
        reply == Ok::<MessageView, ResolverError>(message),
        post.transport == mid,
{
    dns::law_flag_word(message.flags);
}

/// Where the reply over UDP was cut short, did not come, or does not answer the
/// query, the same query goes over TCP, and a whole reply to it is used.
pub proof fn law_failed_reply_is_asked_for_over_tcp<T: DnsTransport>(
    pre: Wire<T>,
    server: AddressView,
    qname: Labels,
    qtype: RecordType,
    udp: Result<MessageView, ResolverError>,
    mid: T,
    tcp: Result<MessageView, ResolverError>,
    reply: Result<MessageView, ResolverError>,
    post: Wire<T>,
)
    requires
        queried_via(pre, server, qname, qtype, udp, mid, tcp, reply, post),
        match udp {
            Ok(message) => message.flags & 0x0200 != 0 || !nameserver::answers_query(
                message,
                nameserver::id_after(pre.ids.last),
                qname,
                qtype,
            ),
            Err(error) => error is DnsTransport,
        },
    ensures
        T::exchanges_tcp(
            mid,
            server,
            nameserver::query_for(nameserver::id_after(pre.ids.last), qname, qtype, 0),
            tcp,
            post.transport,
        ),
        tcp matches Ok(message) ==> nameserver::answers_query(
            message,
            nameserver::id_after(pre.ids.last),
            qname,
            qtype,
        ) && message.flags & 0x0200 == 0 ==> reply == tcp,
{
    if udp is Ok {
        dns::law_flag_word(udp->Ok_0.flags);
    }
    if tcp is Ok {
        dns::law_flag_word(tcp->Ok_0.flags);
    }
}

} // verus!
