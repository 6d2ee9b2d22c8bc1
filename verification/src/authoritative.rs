//! The resolver that asks the nameservers of a delegation and follows aliases
//! and signed referrals.
use crate::dns;
use crate::dns::{
    AddressView, DnsMessage, Labels, MessageView, RecordType, RecordView, ResourceRecord,
    ServerAddress, DNS_RCODE_NXDOMAIN, QTYPE_ALL,
};
use crate::dnssec;
use crate::dnssec::{
    ChildKeys, DelegatedDnssecVerifier, DnsTransport, LinkView, Trust, TrustView, Wire, ZoneKeys,
    ZoneView, MAX_CNAME_CHAIN_LEN,
};
use crate::error::ResolverError;
use crate::name;
use crate::name::DnsName;
use crate::nameserver;
use crate::nameserver::{
    ChildReferral, DelegationView, HnsDelegation, QueryIds, ReferralView, FIRST_DNS_QUERY_ID,
};
use crate::resolver;
use crate::resolver::{
    AnswerView, DelegatedResolver, Reply, RequestView, ResolutionAnswer, ResolutionRequest,
};
use vstd::prelude::*;

verus! {

/// What stays the same while the aliases of one request are followed.
pub struct WalkView {
    pub trust: TrustView,
    pub server: AddressView,
    pub request: Labels,
    pub qtype: RecordType,
}

/// The alias records of `owner`; none where aliases themselves are asked for.
pub open spec fn aliases(answers: Seq<RecordView>, owner: Labels, qtype: RecordType) -> Seq<
    RecordView,
> {
    if qtype == RecordType::Cname {
        Seq::empty()
    } else {
        dns::rrset(answers, owner, RecordType::Cname)
    }
}

/// Whether following the aliases from `owner` in `response`, with `steps` steps
/// left and the records `prefix` already accepted, may end in `reply`.
///
/// A record set of the asked type ends the walk, an alias inside the zone
/// continues it, and a name that the response does not speak of is asked for.
/// Whatever is used passes the verifier first.
pub open spec fn walked<T: DnsTransport, V: DelegatedDnssecVerifier>(
    steps: nat,
    verifier: V,
    walk: WalkView,
    pre: Wire<T>,
    response: MessageView,
    owner: Labels,
    prefix: Seq<RecordView>,
    reply: Reply,
    post: Wire<T>,
) -> bool
    decreases steps,
{
    let target = dns::rrset(response.answers, owner, walk.qtype);
    let alias = aliases(response.answers, owner, walk.qtype);
    if steps == 0 || (target.len() > 0 && alias.len() > 0) {
        reply == Err::<AnswerView, _>(ResolverError::DnssecFailed) && post == pre
    } else if target.len() > 0 {
        exists|outcome: Result<(), ResolverError>|
            #[trigger] dnssec::rrset_checked(
                verifier,
                walk.trust,
                owner,
                target,
                response.answers,
                outcome,
            ) && post == pre && reply == dnssec::absent(walk.request, prefix + target, outcome)
    } else if alias.len() > 0 {
        exists|outcome: Result<(), ResolverError>|
            #[trigger] dnssec::rrset_checked(
                verifier,
                walk.trust,
                owner,
                alias,
                response.answers,
                outcome,
            ) && match outcome {
                Err(error) => reply == Err::<AnswerView, _>(error) && post == pre,
                Ok(_) => match nameserver::alias_target(alias) {
                    Some(next) if name::ends_with(next, walk.trust.apex()) => walked(
                        (steps - 1) as nat,
                        verifier,
                        walk,
                        pre,
                        response,
                        next,
                        prefix + alias,
                        reply,
                        post,
                    ),
                    _ => reply == Err::<AnswerView, _>(ResolverError::DnssecFailed) && post == pre,
                },
            }
    } else if owner != walk.request && response.questions[0].name != owner {
        exists|next: Result<MessageView, ResolverError>, mid: Wire<T>|
            #[trigger] dnssec::queried(pre, walk.server, owner, walk.qtype, next, mid)
                && match next {
                Err(error) => reply == Err::<AnswerView, _>(error) && post == mid,
                Ok(message) => walked(
                    (steps - 1) as nat,
                    verifier,
                    walk,
                    mid,
                    message,
                    owner,
                    prefix,
                    reply,
                    post,
                ),
            }
    } else if dns::rcode_of(response.flags) == DNS_RCODE_NXDOMAIN {
        dnssec::name_error_checked(verifier, walk.trust, owner, response, prefix, reply) && post
            == pre
    } else {
        dnssec::no_data_checked(
            verifier,
            walk.trust,
            owner,
            walk.qtype,
            response,
            prefix,
            reply,
        ) && post == pre
    }
}

/// The number of responses that are read for one request.
pub open spec fn walk_steps() -> nat {
    (MAX_CNAME_CHAIN_LEN + 1) as nat
}

fn follow<T: DnsTransport, V: DelegatedDnssecVerifier>(
    steps: usize,
    wire: &mut Wire<T>,
    verifier: &V,
    trust: &Trust,
    server: &ServerAddress,
    request_name: &DnsName,
    qtype: RecordType,
    response: DnsMessage,
    owner: DnsName,
    prefix: Vec<ResourceRecord>,
) -> (r: Result<ResolutionAnswer, ResolverError>)
    requires
        response@.questions.len() >= 1,
    ensures
        walked(
            steps as nat,
            *verifier,
            (WalkView { trust: trust@, server: server@, request: request_name@, qtype }),
            *old(wire),
            response@,
            owner@,
            dns::record_views(prefix@),
            resolver::answer_reply(r),
            *final(wire),
        ),
    decreases steps,
{
    if steps == 0 {
        return Err(ResolverError::DnssecFailed);
    }
    let target = dns::records_for(&response.answers, &owner, qtype);
    let alias = match qtype {
        RecordType::Cname => {
            let none: Vec<ResourceRecord> = Vec::new();
            assert(dns::record_views(none@) =~= Seq::empty());
            none
        },
        _ => dns::records_for(&response.answers, &owner, RecordType::Cname),
    };
    assert(dns::record_views(target@).len() == target@.len());
    assert(dns::record_views(alias@).len() == alias@.len());
    assert(dns::record_views(alias@) == aliases(response@.answers, owner@, qtype));
    if target.len() > 0 && alias.len() > 0 {
        return Err(ResolverError::DnssecFailed);
    }
    let mut prefix = prefix;
    if target.len() > 0 {
        match dnssec::validate_secure_rrset(verifier, trust, &owner, &target, &response) {
            Ok(_) => {
                dns::append_records(&mut prefix, &target);
                return Ok(
                    ResolutionAnswer { name: request_name.copy(), records: prefix, secure: true },
                );
            },
            Err(error) => {
                return Err(error);
            },
        }
    }
    if alias.len() > 0 {
        match dnssec::validate_secure_rrset(verifier, trust, &owner, &alias, &response) {
            Ok(_) => {},
            Err(error) => {
                return Err(error);
            },
        }
        match nameserver::cname_target(&alias) {
            Ok(next) => {
                if !next.is_at_or_below(trust.apex()) {
                    return Err(ResolverError::DnssecFailed);
                }
                dns::append_records(&mut prefix, &alias);
                return follow(
                    steps - 1,
                    wire,
                    verifier,
                    trust,
                    server,
                    request_name,
                    qtype,
                    response,
                    next,
                    prefix,
                );
            },
            Err(error) => {
                return Err(error);
            },
        }
    }
    assert(response@.questions[0] == response.questions@[0]@);
    if !owner.same(request_name) && !response.questions[0].name.same(&owner) {
        let ghost pre = *wire;
        let ghost walk = WalkView {
            trust: trust@,
            server: server@,
            request: request_name@,
            qtype,
        };
        let asked = dnssec::dns_query(wire, server, &owner, qtype);
        assert(dnssec::queried(
            pre,
            walk.server,
            owner@,
            walk.qtype,
            nameserver::message_reply(asked),
            *wire,
        ));
        match asked {
            Ok(message) => {
                return follow(
                    steps - 1,
                    wire,
                    verifier,
                    trust,
                    server,
                    request_name,
                    qtype,
                    message,
                    owner,
                    prefix,
                );
            },
            Err(error) => {
                return Err(error);
            },
        }
    }
    if response.flags % 16 == DNS_RCODE_NXDOMAIN {
        return dnssec::resolve_secure_name_error(verifier, trust, &owner, &response, prefix);
    }
    dnssec::resolve_secure_no_data(verifier, trust, &owner, qtype, &response, prefix)
}

/// Reads the answer of a zone's server: follows its aliases inside the zone and
/// lets the verifier decide on every record set.
pub fn resolve_secure_answer_records<T: DnsTransport, V: DelegatedDnssecVerifier>(
    wire: &mut Wire<T>,
    verifier: &V,
    server: &ServerAddress,
    zone: ZoneKeys,
    request_name: &DnsName,
    qtype: RecordType,
    initial_response: DnsMessage,
) -> (r: Result<ResolutionAnswer, ResolverError>)
    requires
        initial_response@.questions.len() >= 1,
    ensures
        walked(
            walk_steps(),
            *verifier,
            (WalkView {
                trust: TrustView { zone: zone@, link: None },
                server: server@,
                request: request_name@,
                qtype,
            }),
            *old(wire),
            initial_response@,
            request_name@,
            Seq::empty(),
            resolver::answer_reply(r),
            *final(wire),
        ),
{
    let trust = Trust { zone, link: None };
    let prefix: Vec<ResourceRecord> = Vec::new();
    assert(dns::record_views(prefix@) =~= Seq::empty());
    follow(
        MAX_CNAME_CHAIN_LEN + 1,
        wire,
        verifier,
        &trust,
        server,
        request_name,
        qtype,
        initial_response,
        request_name.copy(),
        prefix,
    )
}

/// Reads the answer of a child zone's server, whose keys the parent vouches for.
pub fn resolve_secure_child_answer_records<T: DnsTransport, V: DelegatedDnssecVerifier>(
    wire: &mut Wire<T>,
    verifier: &V,
    server: &ServerAddress,
    trust: &Trust,
    request_name: &DnsName,
    qtype: RecordType,
    initial_response: DnsMessage,
) -> (r: Result<ResolutionAnswer, ResolverError>)
    requires
        initial_response@.questions.len() >= 1,
    ensures
        walked(
            walk_steps(),
            *verifier,
            (WalkView { trust: trust@, server: server@, request: request_name@, qtype }),
            *old(wire),
            initial_response@,
            request_name@,
            Seq::empty(),
            resolver::answer_reply(r),
            *final(wire),
        ),
{
    let prefix: Vec<ResourceRecord> = Vec::new();
    assert(dns::record_views(prefix@) =~= Seq::empty());
    follow(
        MAX_CNAME_CHAIN_LEN + 1,
        wire,
        verifier,
        trust,
        server,
        request_name,
        qtype,
        initial_response,
        request_name.copy(),
        prefix,
    )
}

/// A request that has been parsed.
pub struct Target {
    pub name: DnsName,
    pub qtype: RecordType,
}

/// The keys that a server has published for `owner`, under the digests `ds`.
pub open spec fn zone_from(owner: Labels, ds: Seq<RecordView>, keys: MessageView) -> ZoneView {
    ZoneView {
        owner,
        ds,
        dnskey: dns::rrset(keys.answers, owner, RecordType::Dnskey),
        dnskey_rrsig: dns::rrset(keys.answers, owner, RecordType::Rrsig),
    }
}

/// The keys that a child zone's server has published, under the signed digests
/// of the referral.
pub open spec fn link_from(referral: ReferralView, keys: MessageView) -> LinkView {
    LinkView {
        owner: referral.owner,
        ds: referral.ds_rrset,
        ds_rrsig: referral.ds_rrsig_rrset,
        dnskey: dns::rrset(keys.answers, referral.owner, RecordType::Dnskey),
        dnskey_rrsig: dns::rrset(keys.answers, referral.owner, RecordType::Rrsig),
    }
}

/// Whether one server of a child zone may bring about `reply`.
pub open spec fn child_server_asked<T: DnsTransport, V: DelegatedDnssecVerifier>(
    verifier: V,
    zone: ZoneView,
    referral: ReferralView,
    request: Labels,
    qtype: RecordType,
    pre: Wire<T>,
    server: AddressView,
    reply: Reply,
    post: Wire<T>,
) -> bool {
    exists|keys: Result<MessageView, ResolverError>, mid: Wire<T>|
        #[trigger] dnssec::queried(pre, server, referral.owner, RecordType::Dnskey, keys, mid)
            && match keys {
            Err(error) => reply == Err::<AnswerView, _>(error) && post == mid,
            Ok(message) => child_keys_read(
                verifier,
                zone,
                link_from(referral, message),
                request,
                qtype,
                mid,
                server,
                reply,
                post,
            ),
        }
}

/// What follows once the child's keys are read.
pub open spec fn child_keys_read<T: DnsTransport, V: DelegatedDnssecVerifier>(
    verifier: V,
    zone: ZoneView,
    link: LinkView,
    request: Labels,
    qtype: RecordType,
    pre: Wire<T>,
    server: AddressView,
    reply: Reply,
    post: Wire<T>,
) -> bool {
    let trust = TrustView { zone, link: Some(link) };
    if !trust.has_keys() {
        reply == Err::<AnswerView, _>(ResolverError::DnssecFailed) && post == pre
    } else {
        exists|target: Result<MessageView, ResolverError>, mid: Wire<T>|
            #[trigger] dnssec::queried(pre, server, request, qtype, target, mid) && match target {
                Err(error) => reply == Err::<AnswerView, _>(error) && post == mid,
                Ok(message) => walked(
                    walk_steps(),
                    verifier,
                    WalkView { trust, server, request, qtype },
                    mid,
                    message,
                    request,
                    Seq::empty(),
                    reply,
                    post,
                ),
            }
    }
}

/// Whether trying the child's servers `servers[i..]` in turn may end in `reply`:
/// the first answer counts, else the last error.
pub open spec fn child_servers_tried<T: DnsTransport, V: DelegatedDnssecVerifier>(
    verifier: V,
    zone: ZoneView,
    referral: ReferralView,
    request: Labels,
    qtype: RecordType,
    i: nat,
    last_error: ResolverError,
    pre: Wire<T>,
    reply: Reply,
    post: Wire<T>,
) -> bool
    decreases referral.servers.len() - i,
{
    if i >= referral.servers.len() {
        reply == Err::<AnswerView, _>(last_error) && post == pre
    } else {
        exists|one: Reply, mid: Wire<T>|
            #[trigger] child_server_asked(
                verifier,
                zone,
                referral,
                request,
                qtype,
                pre,
                referral.servers[i as int],
                one,
                mid,
            ) && match one {
                Ok(_) => reply == one && post == mid,
                Err(error) => child_servers_tried(
                    verifier,
                    zone,
                    referral,
                    request,
                    qtype,
                    i + 1,
                    error,
                    mid,
                    reply,
                    post,
                ),
            }
    }
}

/// Whether a signed referral may bring about `reply`.
pub open spec fn referral_followed<T: DnsTransport, V: DelegatedDnssecVerifier>(
    verifier: V,
    zone: ZoneView,
    referral: ReferralView,
    request: Labels,
    qtype: RecordType,
    pre: Wire<T>,
    reply: Reply,
    post: Wire<T>,
) -> bool {
    if zone.dnskey.len() == 0 || zone.dnskey_rrsig.len() == 0 || referral.ds_rrset.len() == 0
        || referral.ds_rrsig_rrset.len() == 0 {
        reply == Err::<AnswerView, _>(ResolverError::DnssecFailed) && post == pre
    } else {
        child_servers_tried(
            verifier,
            zone,
            referral,
            request,
            qtype,
            0,
            ResolverError::NoNameserverAddress,
            pre,
            reply,
            post,
        )
    }
}

fn resolve_secure_child_from_server<T: DnsTransport, V: DelegatedDnssecVerifier>(
    wire: &mut Wire<T>,
    verifier: &V,
    server: &ServerAddress,
    zone: &ZoneKeys,
    referral: &ChildReferral,
    target: &Target,
) -> (r: Result<ResolutionAnswer, ResolverError>)
    ensures
        child_server_asked(
            *verifier,
            zone@,
            referral@,
            target.name@,
            target.qtype,
            *old(wire),
            server@,
            resolver::answer_reply(r),
            *final(wire),
        ),
{
    let keys = match dnssec::dns_query(wire, server, &referral.owner, RecordType::Dnskey) {
        Ok(message) => message,
        Err(error) => {
            return Err(error);
        },
    };
    let trust = Trust {
        zone: ZoneKeys {
            owner: zone.owner.copy(),
            ds_rrset: dns::copy_records(&zone.ds_rrset),
            dnskey_rrset: dns::copy_records(&zone.dnskey_rrset),
            dnskey_rrsig_rrset: dns::copy_records(&zone.dnskey_rrsig_rrset),
        },
        link: Some(
            ChildKeys {
                owner: referral.owner.copy(),
                ds_rrset: dns::copy_records(&referral.ds_rrset),
                ds_rrsig_rrset: dns::copy_records(&referral.ds_rrsig_rrset),
                dnskey_rrset: dns::records_for(
                    &keys.answers,
                    &referral.owner,
                    RecordType::Dnskey,
                ),
                dnskey_rrsig_rrset: dns::records_for(
                    &keys.answers,
                    &referral.owner,
                    RecordType::Rrsig,
                ),
            },
        ),
    };
    assert(trust@ == (TrustView { zone: zone@, link: Some(link_from(referral@, keys@)) }));
    if !trust.has_keys() {
        return Err(ResolverError::DnssecFailed);
    }
    match dnssec::dns_query(wire, server, &target.name, target.qtype) {
        Ok(message) => resolve_secure_child_answer_records(
            wire,
            verifier,
            server,
            &trust,
            &target.name,
            target.qtype,
            message,
        ),
        Err(error) => Err(error),
    }
}

fn try_child_servers<T: DnsTransport, V: DelegatedDnssecVerifier>(
    wire: &mut Wire<T>,
    verifier: &V,
    zone: &ZoneKeys,
    referral: &ChildReferral,
    target: &Target,
    i: usize,
    last_error: ResolverError,
) -> (r: Result<ResolutionAnswer, ResolverError>)
    requires
        i <= referral.servers.len(),
    ensures
        child_servers_tried(
            *verifier,
            zone@,
            referral@,
            target.name@,
            target.qtype,
            i as nat,
            last_error,
            *old(wire),
            resolver::answer_reply(r),
            *final(wire),
        ),
    decreases referral.servers.len() - i,
{
    if i >= referral.servers.len() {
        return Err(last_error);
    }
    assert(referral@.servers[i as int] == referral.servers@[i as int]@);
    match resolve_secure_child_from_server(
        wire,
        verifier,
        &referral.servers[i],
        zone,
        referral,
        target,
    ) {
        Ok(answer) => Ok(answer),
        Err(error) => try_child_servers(wire, verifier, zone, referral, target, i + 1, error),
    }
}

/// Follows a signed referral to the servers of a child zone.
pub fn resolve_secure_child_referral<T: DnsTransport, V: DelegatedDnssecVerifier>(
    wire: &mut Wire<T>,
    verifier: &V,
    zone: &ZoneKeys,
    referral: &ChildReferral,
    target: &Target,
) -> (r: Result<ResolutionAnswer, ResolverError>)
    ensures
        referral_followed(
            *verifier,
            zone@,
            referral@,
            target.name@,
            target.qtype,
            *old(wire),
            resolver::answer_reply(r),
            *final(wire),
        ),
{
    if zone.dnskey_rrset.len() == 0 || zone.dnskey_rrsig_rrset.len() == 0
        || referral.ds_rrset.len() == 0 || referral.ds_rrsig_rrset.len() == 0 {
        return Err(ResolverError::DnssecFailed);
    }
    try_child_servers(
        wire,
        verifier,
        zone,
        referral,
        target,
        0,
        ResolverError::NoNameserverAddress,
    )
}

/// What follows once the zone's keys are read.
pub open spec fn zone_keys_read<T: DnsTransport, V: DelegatedDnssecVerifier>(
    verifier: V,
    zone: ZoneView,
    request: Labels,
    qtype: RecordType,
    response: MessageView,
    server: AddressView,
    pre: Wire<T>,
    reply: Reply,
    post: Wire<T>,
) -> bool {
    let trust = TrustView { zone, link: None };
    if dns::rcode_of(response.flags) == DNS_RCODE_NXDOMAIN {
        dnssec::name_error_checked(verifier, trust, request, response, Seq::empty(), reply) && post
            == pre
    } else {
        match nameserver::referral_in(response, zone.owner, request) {
            Some(referral) => referral_followed(
                verifier,
                zone,
                referral,
                request,
                qtype,
                pre,
                reply,
                post,
            ),
            None => if dns::rrset(response.answers, request, qtype).len() == 0 && dns::rrset(
                response.answers,
                request,
                RecordType::Cname,
            ).len() == 0 {
                dnssec::no_data_checked(
                    verifier,
                    trust,
                    request,
                    qtype,
                    response,
                    Seq::empty(),
                    reply,
                ) && post == pre
            } else if !trust.has_keys() {
                reply == Err::<AnswerView, _>(ResolverError::DnssecFailed) && post == pre
            } else {
                walked(
                    walk_steps(),
                    verifier,
                    WalkView { trust, server, request, qtype },
                    pre,
                    response,
                    request,
                    Seq::empty(),
                    reply,
                    post,
                )
            },
        }
    }
}

/// Whether one server of the delegation may bring about `reply`. Without
/// digests in the delegation its answer is taken as it is, and is not secure.
pub open spec fn server_asked<T: DnsTransport, V: DelegatedDnssecVerifier>(
    verifier: V,
    owner: Labels,
    ds: Seq<RecordView>,
    request: Labels,
    qtype: RecordType,
    pre: Wire<T>,
    server: AddressView,
    reply: Reply,
    post: Wire<T>,
) -> bool {
    exists|target: Result<MessageView, ResolverError>, mid: Wire<T>|
        #[trigger] dnssec::queried(pre, server, request, qtype, target, mid) && match target {
            Err(error) => reply == Err::<AnswerView, _>(error) && post == mid,
            Ok(response) => if ds.len() == 0 {
                post == mid && reply == Ok::<_, ResolverError>(
                    AnswerView {
                        name: request,
                        records: dns::rrset(response.answers, request, qtype),
                        secure: false,
                    },
                )
            } else {
                keys_asked(
                    verifier,
                    owner,
                    ds,
                    request,
                    qtype,
                    response,
                    mid,
                    server,
                    reply,
                    post,
                )
            },
        }
}

/// What follows once a signed delegation's server has answered.
pub open spec fn keys_asked<T: DnsTransport, V: DelegatedDnssecVerifier>(
    verifier: V,
    owner: Labels,
    ds: Seq<RecordView>,
    request: Labels,
    qtype: RecordType,
    response: MessageView,
    pre: Wire<T>,
    server: AddressView,
    reply: Reply,
    post: Wire<T>,
) -> bool {
    exists|keys: Result<MessageView, ResolverError>, mid: Wire<T>|
        #[trigger] dnssec::queried(pre, server, owner, RecordType::Dnskey, keys, mid) && match keys {
            Err(error) => reply == Err::<AnswerView, _>(error) && post == mid,
            Ok(message) => zone_keys_read(
                verifier,
                zone_from(owner, ds, message),
                request,
                qtype,
                response,
                server,
                mid,
                reply,
                post,
            ),
        }
}

/// Asks one server of the delegation.
pub fn resolve_delegated_from_server<T: DnsTransport, V: DelegatedDnssecVerifier>(
    wire: &mut Wire<T>,
    verifier: &V,
    server: &ServerAddress,
    owner: &DnsName,
    ds_rrset: &Vec<ResourceRecord>,
    target: &Target,
) -> (r: Result<ResolutionAnswer, ResolverError>)
    ensures
        server_asked(
            *verifier,
            owner@,
            dns::record_views(ds_rrset@),
            target.name@,
            target.qtype,
            *old(wire),
            server@,
            resolver::answer_reply(r),
            *final(wire),
        ),
{
    let response = match dnssec::dns_query(wire, server, &target.name, target.qtype) {
        Ok(message) => message,
        Err(error) => {
            return Err(error);
        },
    };
    let target_rrset = dns::records_for(&response.answers, &target.name, target.qtype);
    assert(dns::record_views(ds_rrset@).len() == ds_rrset@.len());
    if ds_rrset.len() == 0 {
        return Ok(
            ResolutionAnswer { name: target.name.copy(), records: target_rrset, secure: false },
        );
    }
    let keys = match dnssec::dns_query(wire, server, owner, RecordType::Dnskey) {
        Ok(message) => message,
        Err(error) => {
            return Err(error);
        },
    };
    let zone = ZoneKeys {
        owner: owner.copy(),
        ds_rrset: dns::copy_records(ds_rrset),
        dnskey_rrset: dns::records_for(&keys.answers, owner, RecordType::Dnskey),
        dnskey_rrsig_rrset: dns::records_for(&keys.answers, owner, RecordType::Rrsig),
    };
    assert(zone@ == zone_from(owner@, dns::record_views(ds_rrset@), keys@));
    let nothing: Vec<ResourceRecord> = Vec::new();
    assert(dns::record_views(nothing@) =~= Seq::empty());
    if response.flags % 16 == DNS_RCODE_NXDOMAIN {
        let trust = Trust { zone, link: None };
        return dnssec::resolve_secure_name_error(
            verifier,
            &trust,
            &target.name,
            &response,
            nothing,
        );
    }
    match nameserver::child_referral(&response, owner, &target.name) {
        Some(referral) => {
            return resolve_secure_child_referral(wire, verifier, &zone, &referral, target);
        },
        None => {},
    }
    let alias_rrset = dns::records_for(&response.answers, &target.name, RecordType::Cname);
    assert(dns::record_views(target_rrset@).len() == target_rrset@.len());
    assert(dns::record_views(alias_rrset@).len() == alias_rrset@.len());
    if target_rrset.len() == 0 && alias_rrset.len() == 0 {
        let trust = Trust { zone, link: None };
        return dnssec::resolve_secure_no_data(
            verifier,
            &trust,
            &target.name,
            target.qtype,
            &response,
            nothing,
        );
    }
    if zone.dnskey_rrset.len() == 0 || zone.dnskey_rrsig_rrset.len() == 0 {
        return Err(ResolverError::DnssecFailed);
    }
    resolve_secure_answer_records(
        wire,
        verifier,
        server,
        zone,
        &target.name,
        target.qtype,
        response,
    )
}

/// Whether trying the delegation's servers `servers[i..]` in turn may end in
/// `reply`: the first answer counts, else the last error.
pub open spec fn servers_tried<T: DnsTransport, V: DelegatedDnssecVerifier>(
    verifier: V,
    owner: Labels,
    ds: Seq<RecordView>,
    request: Labels,
    qtype: RecordType,
    servers: Seq<AddressView>,
    i: nat,
    last_error: ResolverError,
    pre: Wire<T>,
    reply: Reply,
    post: Wire<T>,
) -> bool
    decreases servers.len() - i,
{
    if i >= servers.len() {
        reply == Err::<AnswerView, _>(last_error) && post == pre
    } else {
        exists|one: Reply, mid: Wire<T>|
            #[trigger] server_asked(
                verifier,
                owner,
                ds,
                request,
                qtype,
                pre,
                servers[i as int],
                one,
                mid,
            ) && match one {
                Ok(_) => reply == one && post == mid,
                Err(error) => servers_tried(
                    verifier,
                    owner,
                    ds,
                    request,
                    qtype,
                    servers,
                    i + 1,
                    error,
                    mid,
                    reply,
                    post,
                ),
            }
    }
}

fn try_servers<T: DnsTransport, V: DelegatedDnssecVerifier>(
    wire: &mut Wire<T>,
    verifier: &V,
    owner: &DnsName,
    ds_rrset: &Vec<ResourceRecord>,
    target: &Target,
    servers: &Vec<ServerAddress>,
    i: usize,
    last_error: ResolverError,
) -> (r: Result<ResolutionAnswer, ResolverError>)
    requires
        i <= servers.len(),
    ensures
        servers_tried(
            *verifier,
            owner@,
            dns::record_views(ds_rrset@),
            target.name@,
            target.qtype,
            dns::address_views(servers@),
            i as nat,
            last_error,
            *old(wire),
            resolver::answer_reply(r),
            *final(wire),
        ),
    decreases servers.len() - i,
{
    if i >= servers.len() {
        return Err(last_error);
    }
    assert(dns::address_views(servers@)[i as int] == servers@[i as int]@);
    match resolve_delegated_from_server(wire, verifier, &servers[i], owner, ds_rrset, target) {
        Ok(answer) => Ok(answer),
        Err(error) => try_servers(
            wire,
            verifier,
            owner,
            ds_rrset,
            target,
            servers,
            i + 1,
            error,
        ),
    }
}

/// Resolves under a delegation by asking its nameservers.
pub struct AuthoritativeDnssecResolver<T, V> {
    pub wire: Wire<T>,
    pub verifier: V,
}

impl<T, V> AuthoritativeDnssecResolver<T, V> {
    pub fn new(transport: T, verifier: V) -> (r: Self)
        ensures
            r.wire.transport == transport,
            r.wire.ids.last == FIRST_DNS_QUERY_ID,
            r.verifier == verifier,
    {
        AuthoritativeDnssecResolver::with_ids(transport, verifier, QueryIds::for_dns())
    }

    /// A resolver whose queries go on from given identifiers, so that resolvers
    /// one after another need not repeat them.
    pub fn with_ids(transport: T, verifier: V, ids: QueryIds) -> (r: Self)
        ensures
            r.wire.transport == transport,
            r.wire.ids == ids,
            r.verifier == verifier,
    {
        AuthoritativeDnssecResolver { wire: Wire { transport, ids }, verifier }
    }

    pub fn into_parts(self) -> (r: (T, V))
        ensures
            r == (self.wire.transport, self.verifier),
    {
        (self.wire.transport, self.verifier)
    }
}

/// Whether an authoritative resolver may reply `reply` under a delegation.
pub open spec fn delegation_resolved<T: DnsTransport, V: DelegatedDnssecVerifier>(
    verifier: V,
    request: RequestView,
    delegation: DelegationView,
    pre: Wire<T>,
    reply: Reply,
    post: Wire<T>,
) -> bool {
    if request.qtype == QTYPE_ALL {
        reply == Err::<AnswerView, _>(ResolverError::UnsupportedBackend) && post == pre
    } else {
        match name::parse_name(request.qname) {
            None => reply == Err::<AnswerView, _>(ResolverError::UnsupportedBackend) && post
                == pre,
            Some(request_name) => servers_tried(
                verifier,
                delegation.owner,
                dns::rrset(delegation.records, delegation.owner, RecordType::Ds),
                request_name,
                dns::record_type_of(request.qtype),
                nameserver::delegation_servers(delegation),
                0,
                ResolverError::NoNameserverAddress,
                pre,
                reply,
                post,
            ),
        }
    }
}

impl<T: DnsTransport, V: DelegatedDnssecVerifier> DelegatedResolver for AuthoritativeDnssecResolver<
    T,
    V,
> {
    open spec fn resolves_delegated(
        pre: Self,
        request: RequestView,
        delegation: DelegationView,
        reply: Reply,
        post: Self,
    ) -> bool {
        post.verifier == pre.verifier && delegation_resolved(
            pre.verifier,
            request,
            delegation,
            pre.wire,
            reply,
            post.wire,
        )
    }

    fn resolve_delegated(&mut self, request: &ResolutionRequest, delegation: &HnsDelegation) -> (r:
        Result<ResolutionAnswer, ResolverError>) {
        if request.qtype == QTYPE_ALL {
            return Err(ResolverError::UnsupportedBackend);
        }
        let name = match DnsName::from_ascii(&request.qname) {
            Some(name) => name,
            None => {
                return Err(ResolverError::UnsupportedBackend);
            },
        };
        let target = Target { name, qtype: RecordType::from_code(request.qtype) };
        let servers = nameserver::nameserver_addresses(delegation);
        let ds_rrset = dns::records_for(&delegation.records, &delegation.owner, RecordType::Ds);
        try_servers(
            &mut self.wire,
            &self.verifier,
            &delegation.owner,
            &ds_rrset,
            &target,
            &servers,
            0,
            ResolverError::NoNameserverAddress,
        )
    }
}


/// Whether the verifier has accepted a record set that holds the record.
pub open spec fn vouched_for<V: DelegatedDnssecVerifier>(
    verifier: V,
    trust: TrustView,
    record: RecordView,
) -> bool {
    exists|target: Seq<RecordView>, target_rrsig: Seq<RecordView>|
        #[trigger] verifier.judges(
            trust.asks(dnssec::Claim::Positive { target, target_rrsig }),
            Ok(true),
        ) && target.contains(record)
}

proof fn lemma_checked_is_vouched<V: DelegatedDnssecVerifier>(
    verifier: V,
    trust: TrustView,
    owner: Labels,
    target: Seq<RecordView>,
    answers: Seq<RecordView>,
)
    requires
        dnssec::rrset_checked(verifier, trust, owner, target, answers, Ok(())),
    ensures
        forall|i: int| 0 <= i < target.len() ==> vouched_for(verifier, trust, #[trigger] target[i]),
{
    let signatures = dns::rrset(answers, owner, RecordType::Rrsig);
    let verdict = choose|verdict: Result<bool, ResolverError>|
        #[trigger] verifier.judges(
            trust.asks(dnssec::Claim::Positive { target, target_rrsig: signatures }),
            verdict,
        ) && Ok::<(), ResolverError>(()) == dnssec::accepted(verdict);
    assert(verdict == Ok::<bool, ResolverError>(true));
    assert forall|i: int| 0 <= i < target.len() implies vouched_for(
        verifier,
        trust,
        #[trigger] target[i],
    ) by {
        assert(target.contains(target[i]));
    }
}

/// An answer under signed keys is secure, and every record that the walk adds
/// to it is one that the verifier accepted.
pub proof fn law_walk_answers_only_accepted_records<T: DnsTransport, V: DelegatedDnssecVerifier>(
    steps: nat,
    verifier: V,
    walk: WalkView,
    pre: Wire<T>,
    response: MessageView,
    owner: Labels,
    prefix: Seq<RecordView>,
    answer: AnswerView,
    post: Wire<T>,
)
    requires
        walked(steps, verifier, walk, pre, response, owner, prefix, Ok(answer), post),
    ensures
        answer.secure,
        prefix.len() <= answer.records.len(),
        answer.records.take(prefix.len() as int) == prefix,
        forall|i: int|
            prefix.len() <= i < answer.records.len() ==> vouched_for(
                verifier,
                walk.trust,
                #[trigger] answer.records[i],
            ),
    decreases steps,
{
    let reply: Reply = Ok(answer);
    let target = dns::rrset(response.answers, owner, walk.qtype);
    let alias = aliases(response.answers, owner, walk.qtype);
    if steps == 0 || (target.len() > 0 && alias.len() > 0) {
    } else if target.len() > 0 {
        let outcome = choose|outcome: Result<(), ResolverError>|
            #[trigger] dnssec::rrset_checked(
                verifier,
                walk.trust,
                owner,
                target,
                response.answers,
                outcome,
            ) && post == pre && reply == dnssec::absent(walk.request, prefix + target, outcome);
        assert(outcome is Ok);
        lemma_checked_is_vouched(verifier, walk.trust, owner, target, response.answers);
        assert(answer.records.take(prefix.len() as int) =~= prefix);
        assert forall|i: int| prefix.len() <= i < answer.records.len() implies vouched_for(
            verifier,
            walk.trust,
            #[trigger] answer.records[i],
        ) by {
            assert(answer.records[i] == target[i - prefix.len()]);
        }
    } else if alias.len() > 0 {
        let outcome = choose|outcome: Result<(), ResolverError>|
            #[trigger] dnssec::rrset_checked(
                verifier,
                walk.trust,
                owner,
                alias,
                response.answers,
                outcome,
            ) && match outcome {
                Err(error) => reply == Err::<AnswerView, _>(error) && post == pre,
                Ok(_) => match nameserver::alias_target(alias) {
                    Some(next) if name::ends_with(next, walk.trust.apex()) => walked(
                        (steps - 1) as nat,
                        verifier,
                        walk,
                        pre,
                        response,
                        next,
                        prefix + alias,
                        reply,
                        post,
                    ),
                    _ => reply == Err::<AnswerView, _>(ResolverError::DnssecFailed) && post == pre,
                },
            };
        assert(outcome is Ok);
        lemma_checked_is_vouched(verifier, walk.trust, owner, alias, response.answers);
        let next = nameserver::alias_target(alias)->0;
        law_walk_answers_only_accepted_records(
            (steps - 1) as nat,
            verifier,
            walk,
            pre,
            response,
            next,
            prefix + alias,
            answer,
            post,
        );
        let longer = prefix + alias;
        assert(answer.records.take(prefix.len() as int) =~= longer.take(prefix.len() as int));
        assert(longer.take(prefix.len() as int) =~= prefix);
        assert forall|i: int| prefix.len() <= i < answer.records.len() implies vouched_for(
            verifier,
            walk.trust,
            #[trigger] answer.records[i],
        ) by {
            if i < longer.len() {
                assert(answer.records[i] == answer.records.take(longer.len() as int)[i]);
                assert(longer[i] == alias[i - prefix.len()]);
            }
        }
    } else if owner != walk.request && response.questions[0].name != owner {
        let (next, mid) = choose|next: Result<MessageView, ResolverError>, mid: Wire<T>|
            #[trigger] dnssec::queried(pre, walk.server, owner, walk.qtype, next, mid)
                && match next {
                Err(error) => reply == Err::<AnswerView, _>(error) && post == mid,
                Ok(message) => walked(
                    (steps - 1) as nat,
                    verifier,
                    walk,
                    mid,
                    message,
                    owner,
                    prefix,
                    reply,
                    post,
                ),
            };
        law_walk_answers_only_accepted_records(
            (steps - 1) as nat,
            verifier,
            walk,
            mid,
            next->Ok_0,
            owner,
            prefix,
            answer,
            post,
        );
    } else if dns::rcode_of(response.flags) == DNS_RCODE_NXDOMAIN {
        lemma_name_error_keeps_prefix(
            verifier,
            walk.trust,
            owner,
            response,
            prefix,
            nameserver::enclosers(owner, walk.trust.apex()),
            0,
            answer,
        );
        assert(prefix.take(prefix.len() as int) =~= prefix);
    } else {
        assert(answer.records == prefix);
        assert(prefix.take(prefix.len() as int) =~= prefix);
    }
}

proof fn lemma_name_error_keeps_prefix<V: DelegatedDnssecVerifier>(
    verifier: V,
    trust: TrustView,
    name: Labels,
    response: MessageView,
    prefix: Seq<RecordView>,
    enclosers: Seq<Labels>,
    i: nat,
    answer: AnswerView,
)
    requires
        dnssec::name_error_tried(
            verifier,
            trust,
            name,
            response,
            prefix,
            enclosers,
            i,
            Ok(answer),
        ),
    ensures
        answer == (AnswerView { name, records: prefix, secure: true }),
        exists|k: int|
            i <= k < enclosers.len() && #[trigger] verifier.judges(
                trust.asks(
                    dnssec::Claim::NameError {
                        name,
                        encloser: enclosers[k],
                        denial: dnssec::denial_in(response, None),
                    },
                ),
                Ok(true),
            ),
    decreases enclosers.len() - i,
{
    let verdict = choose|verdict: Result<bool, ResolverError>|
        #[trigger] verifier.judges(
            trust.asks(
                dnssec::Claim::NameError {
                    name,
                    encloser: enclosers[i as int],
                    denial: dnssec::denial_in(response, None),
                },
            ),
            verdict,
        ) && match verdict {
            Ok(true) => Ok::<AnswerView, ResolverError>(answer) == Ok::<_, ResolverError>(
                AnswerView { name, records: prefix, secure: true },
            ),
            Ok(false) => dnssec::name_error_tried(
                verifier,
                trust,
                name,
                response,
                prefix,
                enclosers,
                i + 1,
                Ok(answer),
            ),
            Err(error) => Ok::<AnswerView, ResolverError>(answer) == Err::<AnswerView, _>(error),
        };
    if verdict == Ok::<bool, ResolverError>(false) {
        lemma_name_error_keeps_prefix(
            verifier,
            trust,
            name,
            response,
            prefix,
            enclosers,
            i + 1,
            answer,
        );
    } else {
        assert(verdict == Ok::<bool, ResolverError>(true));
    }
}

/// Whether the verifier has accepted that something is absent.
pub open spec fn absence_accepted<V: DelegatedDnssecVerifier>(verifier: V, trust: TrustView) -> bool {
    exists|claim: dnssec::Claim|
        #[trigger] verifier.judges(trust.asks(claim), Ok(true)) && claim !is Positive
}

/// An answer that adds no record comes only of an absence that the verifier
/// accepted.
pub proof fn law_empty_answer_is_a_proven_absence<T: DnsTransport, V: DelegatedDnssecVerifier>(
    steps: nat,
    verifier: V,
    walk: WalkView,
    pre: Wire<T>,
    response: MessageView,
    owner: Labels,
    prefix: Seq<RecordView>,
    answer: AnswerView,
    post: Wire<T>,
)
    requires
        walked(steps, verifier, walk, pre, response, owner, prefix, Ok(answer), post),
        answer.records.len() == prefix.len(),
    ensures
        absence_accepted(verifier, walk.trust),
    decreases steps,
{
    let reply: Reply = Ok(answer);
    let target = dns::rrset(response.answers, owner, walk.qtype);
    let alias = aliases(response.answers, owner, walk.qtype);
    if steps == 0 || (target.len() > 0 && alias.len() > 0) {
    } else if target.len() > 0 {
    } else if alias.len() > 0 {
        let outcome = choose|outcome: Result<(), ResolverError>|
            #[trigger] dnssec::rrset_checked(
                verifier,
                walk.trust,
                owner,
                alias,
                response.answers,
                outcome,
            ) && match outcome {
                Err(error) => reply == Err::<AnswerView, _>(error) && post == pre,
                Ok(_) => match nameserver::alias_target(alias) {
                    Some(next) if name::ends_with(next, walk.trust.apex()) => walked(
                        (steps - 1) as nat,
                        verifier,
                        walk,
                        pre,
                        response,
                        next,
                        prefix + alias,
                        reply,
                        post,
                    ),
                    _ => reply == Err::<AnswerView, _>(ResolverError::DnssecFailed) && post == pre,
                },
            };
        law_walk_answers_only_accepted_records(
            (steps - 1) as nat,
            verifier,
            walk,
            pre,
            response,
            nameserver::alias_target(alias)->0,
            prefix + alias,
            answer,
            post,
        );
    } else if owner != walk.request && response.questions[0].name != owner {
        let (next, mid) = choose|next: Result<MessageView, ResolverError>, mid: Wire<T>|
            #[trigger] dnssec::queried(pre, walk.server, owner, walk.qtype, next, mid)
                && match next {
                Err(error) => reply == Err::<AnswerView, _>(error) && post == mid,
                Ok(message) => walked(
                    (steps - 1) as nat,
                    verifier,
                    walk,
                    mid,
                    message,
                    owner,
                    prefix,
                    reply,
                    post,
                ),
            };
        law_empty_answer_is_a_proven_absence(
            (steps - 1) as nat,
            verifier,
            walk,
            mid,
            next->Ok_0,
            owner,
            prefix,
            answer,
            post,
        );
    } else if dns::rcode_of(response.flags) == DNS_RCODE_NXDOMAIN {
        lemma_name_error_keeps_prefix(
            verifier,
            walk.trust,
            owner,
            response,
            prefix,
            nameserver::enclosers(owner, walk.trust.apex()),
            0,
            answer,
        );
    } else {
        let claim = dnssec::Claim::NoData {
            name: owner,
            qtype: walk.qtype,
            denial: dnssec::denial_in(response, Some(owner)),
        };
        let verdict = choose|verdict: Result<bool, ResolverError>|
            #[trigger] verifier.judges(walk.trust.asks(claim), verdict) && reply == dnssec::absent(
                owner,
                prefix,
                dnssec::accepted(verdict),
            );
        assert(verdict == Ok::<bool, ResolverError>(true));
    }
}

/// Every alias that the walk adds to an answer points into the answering zone.
pub proof fn law_aliases_stay_in_the_zone<T: DnsTransport, V: DelegatedDnssecVerifier>(
    steps: nat,
    verifier: V,
    walk: WalkView,
    pre: Wire<T>,
    response: MessageView,
    owner: Labels,
    prefix: Seq<RecordView>,
    answer: AnswerView,
    post: Wire<T>,
)
    requires
        walked(steps, verifier, walk, pre, response, owner, prefix, Ok(answer), post),
        walk.qtype != RecordType::Cname,
    ensures
        forall|i: int|
            prefix.len() <= i < answer.records.len() && (#[trigger] answer.records[i]).record_type
                == RecordType::Cname ==> (answer.records[i].target matches Some(target)
                && name::ends_with(target, walk.trust.apex())),
    decreases steps,
{
    let reply: Reply = Ok(answer);
    let target = dns::rrset(response.answers, owner, walk.qtype);
    let alias = aliases(response.answers, owner, walk.qtype);
    law_walk_answers_only_accepted_records(
        steps,
        verifier,
        walk,
        pre,
        response,
        owner,
        prefix,
        answer,
        post,
    );
    if steps == 0 || (target.len() > 0 && alias.len() > 0) {
    } else if target.len() > 0 {
        assert forall|i: int|
            prefix.len() <= i < answer.records.len() implies (
        #[trigger] answer.records[i]).record_type == walk.qtype by {
            assert(answer.records[i] == target[i - prefix.len()]);
            dns::lemma_filter_member(
                response.answers,
                dns::owned_as(owner, walk.qtype),
                i - prefix.len(),
            );
        }
    } else if alias.len() > 0 {
        let outcome = choose|outcome: Result<(), ResolverError>|
            #[trigger] dnssec::rrset_checked(
                verifier,
                walk.trust,
                owner,
                alias,
                response.answers,
                outcome,
            ) && match outcome {
                Err(error) => reply == Err::<AnswerView, _>(error) && post == pre,
                Ok(_) => match nameserver::alias_target(alias) {
                    Some(next) if name::ends_with(next, walk.trust.apex()) => walked(
                        (steps - 1) as nat,
                        verifier,
                        walk,
                        pre,
                        response,
                        next,
                        prefix + alias,
                        reply,
                        post,
                    ),
                    _ => reply == Err::<AnswerView, _>(ResolverError::DnssecFailed) && post == pre,
                },
            };
        let next = nameserver::alias_target(alias)->0;
        let longer = prefix + alias;
        law_aliases_stay_in_the_zone(
            (steps - 1) as nat,
            verifier,
            walk,
            pre,
            response,
            next,
            longer,
            answer,
            post,
        );
        law_walk_answers_only_accepted_records(
            (steps - 1) as nat,
            verifier,
            walk,
            pre,
            response,
            next,
            longer,
            answer,
            post,
        );
        assert forall|i: int|
            prefix.len() <= i < answer.records.len() && (#[trigger] answer.records[i]).record_type
                == RecordType::Cname implies (answer.records[i].target matches Some(target)
            && name::ends_with(target, walk.trust.apex())) by {
            if i < longer.len() {
                assert(answer.records[i] == answer.records.take(longer.len() as int)[i]);
                assert(longer[i] == alias[i - prefix.len()]);
                assert(alias.len() == 1);
            }
        }
    } else if owner != walk.request && response.questions[0].name != owner {
        let (next, mid) = choose|next: Result<MessageView, ResolverError>, mid: Wire<T>|
            #[trigger] dnssec::queried(pre, walk.server, owner, walk.qtype, next, mid)
                && match next {
                Err(error) => reply == Err::<AnswerView, _>(error) && post == mid,
                Ok(message) => walked(
                    (steps - 1) as nat,
                    verifier,
                    walk,
                    mid,
                    message,
                    owner,
                    prefix,
                    reply,
                    post,
                ),
            };
        law_aliases_stay_in_the_zone(
            (steps - 1) as nat,
            verifier,
            walk,
            mid,
            next->Ok_0,
            owner,
            prefix,
            answer,
            post,
        );
    } else if dns::rcode_of(response.flags) == DNS_RCODE_NXDOMAIN {
        lemma_name_error_keeps_prefix(
            verifier,
            walk.trust,
            owner,
            response,
            prefix,
            nameserver::enclosers(owner, walk.trust.apex()),
            0,
            answer,
        );
    } else {
    }
}

/// The aliases among the records from `from` on.
pub open spec fn alias_count(records: Seq<RecordView>, from: nat) -> nat
    decreases records.len() - from,
{
    if from >= records.len() {
        0
    } else {
        let rest = alias_count(records, from + 1);
        if records[from as int].record_type == RecordType::Cname {
            1 + rest
        } else {
            rest
        }
    }
}

proof fn lemma_no_alias(records: Seq<RecordView>, from: nat)
    requires
        forall|i: int|
            from <= i < records.len() ==> (#[trigger] records[i]).record_type != RecordType::Cname,
    ensures
        alias_count(records, from) == 0,
    decreases records.len() - from,
{
    if from < records.len() {
        lemma_no_alias(records, from + 1);
    }
}

/// An answer that was walked to in `steps` steps was reached over fewer aliases.
pub proof fn law_alias_chain_is_bounded<T: DnsTransport, V: DelegatedDnssecVerifier>(
    steps: nat,
    verifier: V,
    walk: WalkView,
    pre: Wire<T>,
    response: MessageView,
    owner: Labels,
    prefix: Seq<RecordView>,
    answer: AnswerView,
    post: Wire<T>,
)
    requires
        walked(steps, verifier, walk, pre, response, owner, prefix, Ok(answer), post),
        walk.qtype != RecordType::Cname,
    ensures
        alias_count(answer.records, prefix.len()) < steps,
    decreases steps,
{
    let reply: Reply = Ok(answer);
    let target = dns::rrset(response.answers, owner, walk.qtype);
    let alias = aliases(response.answers, owner, walk.qtype);
    if steps == 0 || (target.len() > 0 && alias.len() > 0) {
    } else if target.len() > 0 {
        assert forall|i: int| prefix.len() <= i < answer.records.len() implies (
        #[trigger] answer.records[i]).record_type != RecordType::Cname by {
            assert(answer.records[i] == target[i - prefix.len()]);
            dns::lemma_filter_member(
                response.answers,
                dns::owned_as(owner, walk.qtype),
                i - prefix.len(),
            );
        }
        lemma_no_alias(answer.records, prefix.len());
    } else if alias.len() > 0 {
        let next = nameserver::alias_target(alias)->0;
        let longer = prefix + alias;
        assert(longer.len() == prefix.len() + 1);
        law_alias_chain_is_bounded(
            (steps - 1) as nat,
            verifier,
            walk,
            pre,
            response,
            next,
            longer,
            answer,
            post,
        );
    } else if owner != walk.request && response.questions[0].name != owner {
        let (next, mid) = choose|next: Result<MessageView, ResolverError>, mid: Wire<T>|
            #[trigger] dnssec::queried(pre, walk.server, owner, walk.qtype, next, mid)
                && match next {
                Err(error) => reply == Err::<AnswerView, _>(error) && post == mid,
                Ok(message) => walked(
                    (steps - 1) as nat,
                    verifier,
                    walk,
                    mid,
                    message,
                    owner,
                    prefix,
                    reply,
                    post,
                ),
            };
        law_alias_chain_is_bounded(
            (steps - 1) as nat,
            verifier,
            walk,
            mid,
            next->Ok_0,
            owner,
            prefix,
            answer,
            post,
        );
    } else if dns::rcode_of(response.flags) == DNS_RCODE_NXDOMAIN {
        lemma_name_error_keeps_prefix(
            verifier,
            walk.trust,
            owner,
            response,
            prefix,
            nameserver::enclosers(owner, walk.trust.apex()),
            0,
            answer,
        );
    } else {
    }
}

proof fn lemma_child_server_is_secure<T: DnsTransport, V: DelegatedDnssecVerifier>(
    verifier: V,
    zone: ZoneView,
    referral: ReferralView,
    request: Labels,
    qtype: RecordType,
    pre: Wire<T>,
    server: AddressView,
    answer: AnswerView,
    post: Wire<T>,
)
    requires
        child_server_asked(
            verifier,
            zone,
            referral,
            request,
            qtype,
            pre,
            server,
            Ok(answer),
            post,
        ),
    ensures
        answer.secure,
{
    let reply: Reply = Ok(answer);
    let (keys, mid) = choose|keys: Result<MessageView, ResolverError>, mid: Wire<T>|
        #[trigger] dnssec::queried(pre, server, referral.owner, RecordType::Dnskey, keys, mid)
            && match keys {
            Err(error) => reply == Err::<AnswerView, _>(error) && post == mid,
            Ok(message) => child_keys_read(
                verifier,
                zone,
                link_from(referral, message),
                request,
                qtype,
                mid,
                server,
                reply,
                post,
            ),
        };
    let trust = TrustView { zone, link: Some(link_from(referral, keys->Ok_0)) };
    let (target, after) = choose|target: Result<MessageView, ResolverError>, after: Wire<T>|
        #[trigger] dnssec::queried(mid, server, request, qtype, target, after) && match target {
            Err(error) => reply == Err::<AnswerView, _>(error) && post == after,
            Ok(message) => walked(
                walk_steps(),
                verifier,
                WalkView { trust, server, request, qtype },
                after,
                message,
                request,
                Seq::empty(),
                reply,
                post,
            ),
        };
    law_walk_answers_only_accepted_records(
        walk_steps(),
        verifier,
        WalkView { trust, server, request, qtype },
        after,
        target->Ok_0,
        request,
        Seq::empty(),
        answer,
        post,
    );
}

proof fn lemma_child_servers_are_secure<T: DnsTransport, V: DelegatedDnssecVerifier>(
    verifier: V,
    zone: ZoneView,
    referral: ReferralView,
    request: Labels,
    qtype: RecordType,
    i: nat,
    last_error: ResolverError,
    pre: Wire<T>,
    answer: AnswerView,
    post: Wire<T>,
)
    requires
        child_servers_tried(
            verifier,
            zone,
            referral,
            request,
            qtype,
            i,
            last_error,
            pre,
            Ok(answer),
            post,
        ),
    ensures
        answer.secure,
    decreases referral.servers.len() - i,
{
    let reply: Reply = Ok(answer);
    let (one, mid) = choose|one: Reply, mid: Wire<T>|
        #[trigger] child_server_asked(
            verifier,
            zone,
            referral,
            request,
            qtype,
            pre,
            referral.servers[i as int],
            one,
            mid,
        ) && match one {
            Ok(_) => reply == one && post == mid,
            Err(error) => child_servers_tried(
                verifier,
                zone,
                referral,
                request,
                qtype,
                i + 1,
                error,
                mid,
                reply,
                post,
            ),
        };
    match one {
        Ok(_) => lemma_child_server_is_secure(
            verifier,
            zone,
            referral,
            request,
            qtype,
            pre,
            referral.servers[i as int],
            answer,
            post,
        ),
        Err(error) => lemma_child_servers_are_secure(
            verifier,
            zone,
            referral,
            request,
            qtype,
            i + 1,
            error,
            mid,
            answer,
            post,
        ),
    }
}

proof fn lemma_zone_keys_are_secure<T: DnsTransport, V: DelegatedDnssecVerifier>(
    verifier: V,
    zone: ZoneView,
    request: Labels,
    qtype: RecordType,
    response: MessageView,
    server: AddressView,
    pre: Wire<T>,
    answer: AnswerView,
    post: Wire<T>,
)
    requires
        zone_keys_read(
            verifier,
            zone,
            request,
            qtype,
            response,
            server,
            pre,
            Ok(answer),
            post,
        ),
    ensures
        answer.secure,
{
    let trust = TrustView { zone, link: None };
    if dns::rcode_of(response.flags) == DNS_RCODE_NXDOMAIN {
        lemma_name_error_keeps_prefix(
            verifier,
            trust,
            request,
            response,
            Seq::empty(),
            nameserver::enclosers(request, trust.apex()),
            0,
            answer,
        );
    } else {
        match nameserver::referral_in(response, zone.owner, request) {
            Some(referral) => lemma_child_servers_are_secure(
                verifier,
                zone,
                referral,
                request,
                qtype,
                0,
                ResolverError::NoNameserverAddress,
                pre,
                answer,
                post,
            ),
            None => if dns::rrset(response.answers, request, qtype).len() == 0 && dns::rrset(
                response.answers,
                request,
                RecordType::Cname,
            ).len() == 0 {
            } else {
                law_walk_answers_only_accepted_records(
                    walk_steps(),
                    verifier,
                    WalkView { trust, server, request, qtype },
                    pre,
                    response,
                    request,
                    Seq::empty(),
                    answer,
                    post,
                );
            },
        }
    }
}

proof fn lemma_server_security<T: DnsTransport, V: DelegatedDnssecVerifier>(
    verifier: V,
    owner: Labels,
    ds: Seq<RecordView>,
    request: Labels,
    qtype: RecordType,
    pre: Wire<T>,
    server: AddressView,
    answer: AnswerView,
    post: Wire<T>,
)
    requires
        server_asked(verifier, owner, ds, request, qtype, pre, server, Ok(answer), post),
    ensures
        answer.secure <==> ds.len() > 0,
{
    let reply: Reply = Ok(answer);
    let (target, mid) = choose|target: Result<MessageView, ResolverError>, mid: Wire<T>|
        #[trigger] dnssec::queried(pre, server, request, qtype, target, mid) && match target {
            Err(error) => reply == Err::<AnswerView, _>(error) && post == mid,
            Ok(response) => if ds.len() == 0 {
                post == mid && reply == Ok::<_, ResolverError>(
                    AnswerView {
                        name: request,
                        records: dns::rrset(response.answers, request, qtype),
                        secure: false,
                    },
                )
            } else {
                keys_asked(
                    verifier,
                    owner,
                    ds,
                    request,
                    qtype,
                    response,
                    mid,
                    server,
                    reply,
                    post,
                )
            },
        };
    if ds.len() > 0 {
        let response = target->Ok_0;
        let (keys, after) = choose|keys: Result<MessageView, ResolverError>, after: Wire<T>|
            #[trigger] dnssec::queried(mid, server, owner, RecordType::Dnskey, keys, after)
                && match keys {
                Err(error) => reply == Err::<AnswerView, _>(error) && post == after,
                Ok(message) => zone_keys_read(
                    verifier,
                    zone_from(owner, ds, message),
                    request,
                    qtype,
                    response,
                    server,
                    after,
                    reply,
                    post,
                ),
            };
        lemma_zone_keys_are_secure(
            verifier,
            zone_from(owner, ds, keys->Ok_0),
            request,
            qtype,
            response,
            server,
            after,
            answer,
            post,
        );
    }
}

proof fn lemma_servers_security<T: DnsTransport, V: DelegatedDnssecVerifier>(
    verifier: V,
    owner: Labels,
    ds: Seq<RecordView>,
    request: Labels,
    qtype: RecordType,
    servers: Seq<AddressView>,
    i: nat,
    last_error: ResolverError,
    pre: Wire<T>,
    answer: AnswerView,
    post: Wire<T>,
)
    requires
        servers_tried(
            verifier,
            owner,
            ds,
            request,
            qtype,
            servers,
            i,
            last_error,
            pre,
            Ok(answer),
            post,
        ),
    ensures
        answer.secure <==> ds.len() > 0,
    decreases servers.len() - i,
{
    let reply: Reply = Ok(answer);
    let (one, mid) = choose|one: Reply, mid: Wire<T>|
        #[trigger] server_asked(
            verifier,
            owner,
            ds,
            request,
            qtype,
            pre,
            servers[i as int],
            one,
            mid,
        ) && match one {
            Ok(_) => reply == one && post == mid,
            Err(error) => servers_tried(
                verifier,
                owner,
                ds,
                request,
                qtype,
                servers,
                i + 1,
                error,
                mid,
                reply,
                post,
            ),
        };
    match one {
        Ok(_) => lemma_server_security(
            verifier,
            owner,
            ds,
            request,
            qtype,
            pre,
            servers[i as int],
            answer,
            post,
        ),
        Err(error) => lemma_servers_security(
            verifier,
            owner,
            ds,
            request,
            qtype,
            servers,
            i + 1,
            error,
            mid,
            answer,
            post,
        ),
    }
}

/// An authoritative answer is secure exactly where the delegation is signed.
pub proof fn law_answer_is_secure_iff_delegation_is_signed<
    T: DnsTransport,
    V: DelegatedDnssecVerifier,
>(
    verifier: V,
    request: RequestView,
    delegation: DelegationView,
    pre: Wire<T>,
    answer: AnswerView,
    post: Wire<T>,
)
    requires
        delegation_resolved(verifier, request, delegation, pre, Ok(answer), post),
    ensures
        answer.secure <==> dns::rrset(delegation.records, delegation.owner, RecordType::Ds).len()
            > 0,
{
    lemma_servers_security(
        verifier,
        delegation.owner,
        dns::rrset(delegation.records, delegation.owner, RecordType::Ds),
        name::parse_name(request.qname)->0,
        dns::record_type_of(request.qtype),
        nameserver::delegation_servers(delegation),
        0,
        ResolverError::NoNameserverAddress,
        pre,
        answer,
        post,
    );
}

/// A delegation without a usable nameserver address is refused as such.
pub proof fn law_no_server_no_answer<T: DnsTransport, V: DelegatedDnssecVerifier>(
    verifier: V,
    request: RequestView,
    delegation: DelegationView,
    pre: Wire<T>,
    reply: Reply,
    post: Wire<T>,
)
    requires
        delegation_resolved(verifier, request, delegation, pre, reply, post),
        request.qtype != QTYPE_ALL,
        name::parse_name(request.qname) is Some,
        nameserver::delegation_servers(delegation).len() == 0,
    ensures
        reply == Err::<AnswerView, _>(ResolverError::NoNameserverAddress),
        post == pre,
{
}

/// A verifier that accepts whatever it is asked.
pub open spec fn accepts_all<V: DelegatedDnssecVerifier>(verifier: V) -> bool {
    forall|question: dnssec::DnssecQuestion, verdict: Result<bool, ResolverError>| #[trigger]
        verifier.judges(question, verdict) ==> verdict == Ok::<bool, ResolverError>(true)
}

/// A signed record set of the asked type that the verifier accepts is the answer:
/// all of its records, behind the aliases that led to it.
pub proof fn law_signed_set_is_answered_whole<T: DnsTransport, V: DelegatedDnssecVerifier>(
    steps: nat,
    verifier: V,
    walk: WalkView,
    pre: Wire<T>,
    response: MessageView,
    owner: Labels,
    prefix: Seq<RecordView>,
    reply: Reply,
    post: Wire<T>,
    at: int,
    signature: int,
)
    requires
        walked(steps, verifier, walk, pre, response, owner, prefix, reply, post),
        steps > 0,
        accepts_all(verifier),
        0 <= at < response.answers.len(),
        response.answers[at].name == owner,
        response.answers[at].record_type == walk.qtype,
        0 <= signature < response.answers.len(),
        response.answers[signature].name == owner,
        response.answers[signature].record_type == RecordType::Rrsig,
        walk.qtype == RecordType::Cname || forall|i: int|
            0 <= i < response.answers.len() && (#[trigger] response.answers[i]).name == owner
                ==> response.answers[i].record_type != RecordType::Cname,
    ensures
        reply matches Ok(answer) && answer.secure && answer.name == walk.request && forall|
            record: RecordView,
        | #[trigger]
            answer.records.contains(record) <==> prefix.contains(record)
                || (response.answers.contains(record) && record.name == owner
                && record.record_type == walk.qtype),
        post == pre,
{
    let answers = response.answers;
    let target = dns::rrset(answers, owner, walk.qtype);
    assert(answers.contains(answers[at]));
    assert(answers.contains(answers[signature]));
    dns::law_rrset_is_complete(answers, owner, walk.qtype, answers[at]);
    dns::law_rrset_is_complete(answers, owner, RecordType::Rrsig, answers[signature]);
    let alias = aliases(answers, owner, walk.qtype);
    if alias.len() > 0 {
        dns::law_rrset_is_complete(answers, owner, RecordType::Cname, alias[0]);
        assert(alias.contains(alias[0]));
        let k = choose|k: int| 0 <= k < answers.len() && answers[k] == alias[0];
        assert(answers[k].name == owner);
        assert(false);
    }
    assert(target.len() > 0);
    let records = prefix + target;
    assert forall|record: RecordView| #[trigger]
        records.contains(record) <==> prefix.contains(record) || (answers.contains(record)
            && record.name == owner && record.record_type == walk.qtype) by {
        dns::law_rrset_is_complete(answers, owner, walk.qtype, record);
        if prefix.contains(record) {
            let k = choose|k: int| 0 <= k < prefix.len() && prefix[k] == record;
            assert(records[k] == record);
        }
        if target.contains(record) {
            let k = choose|k: int| 0 <= k < target.len() && target[k] == record;
            assert(records[prefix.len() + k] == record);
        }
        if records.contains(record) {
            let k = choose|k: int| 0 <= k < records.len() && records[k] == record;
            if k < prefix.len() {
                assert(prefix[k] == record);
            } else {
                assert(target[k - prefix.len()] == record);
            }
        }
    }
}

/// A single signed alias into the zone that the verifier accepts is followed: the
/// reply is the one for its target, with the alias in front.
pub proof fn law_accepted_alias_is_followed<T: DnsTransport, V: DelegatedDnssecVerifier>(
    steps: nat,
    verifier: V,
    walk: WalkView,
    pre: Wire<T>,
    response: MessageView,
    owner: Labels,
    prefix: Seq<RecordView>,
    reply: Reply,
    post: Wire<T>,
    alias: RecordView,
    next: Labels,
    signature: int,
)
    requires
        walked(steps, verifier, walk, pre, response, owner, prefix, reply, post),
        steps > 0,
        accepts_all(verifier),
        walk.qtype != RecordType::Cname,
        dns::rrset(response.answers, owner, RecordType::Cname) == seq![alias],
        alias.target == Some(next),
        name::ends_with(next, walk.trust.apex()),
        0 <= signature < response.answers.len(),
        response.answers[signature].name == owner,
        response.answers[signature].record_type == RecordType::Rrsig,
        forall|i: int|
            0 <= i < response.answers.len() && (#[trigger] response.answers[i]).name == owner
                ==> response.answers[i].record_type != walk.qtype,
    ensures
        walked(
            (steps - 1) as nat,
            verifier,
            walk,
            pre,
            response,
            next,
            prefix.push(alias),
            reply,
            post,
        ),
{
    let answers = response.answers;
    let target = dns::rrset(answers, owner, walk.qtype);
    if target.len() > 0 {
        dns::law_rrset_is_complete(answers, owner, walk.qtype, target[0]);
        assert(target.contains(target[0]));
        let k = choose|k: int| 0 <= k < answers.len() && answers[k] == target[0];
        assert(answers[k].name == owner);
        assert(false);
    }
    assert(answers.contains(answers[signature]));
    dns::law_rrset_is_complete(answers, owner, RecordType::Rrsig, answers[signature]);
    dns::law_rrset_is_complete(answers, owner, RecordType::Cname, alias);
    assert(seq![alias].contains(alias)) by {
        assert(seq![alias][0] == alias);
    }
    assert(prefix + seq![alias] =~= prefix.push(alias));
}

/// What an unsigned delegation's server answers is given as it is: the records of
/// the response with the name and type asked for, all of them and no others.
pub proof fn law_unsigned_answer_is_complete<T: DnsTransport, V: DelegatedDnssecVerifier>(
    verifier: V,
    owner: Labels,
    request: Labels,
    qtype: RecordType,
    pre: Wire<T>,
    server: AddressView,
    answer: AnswerView,
    post: Wire<T>,
) -> (response: MessageView)
    requires
        server_asked(
            verifier,
            owner,
            Seq::empty(),
            request,
            qtype,
            pre,
            server,
            Ok(answer),
            post,
        ),
    ensures
        dnssec::queried(pre, server, request, qtype, Ok(response), post),
        answer.name == request,
        !answer.secure,
        forall|record: RecordView| #[trigger]
            answer.records.contains(record) <==> response.answers.contains(record) && record.name
                == request && record.record_type == qtype,
{
    let (target, mid) = choose|target: Result<MessageView, ResolverError>, mid: Wire<T>|
        #[trigger] dnssec::queried(pre, server, request, qtype, target, mid) && (match target {
            Err(error) => Ok::<AnswerView, ResolverError>(answer) == Err::<AnswerView, _>(error)
                && post == mid,
            Ok(response) => post == mid && Ok::<AnswerView, ResolverError>(answer) == Ok::<
                _,
                ResolverError,
            >(
                AnswerView {
                    name: request,
                    records: dns::rrset(response.answers, request, qtype),
                    secure: false,
                },
            ),
        });
    let response = target->Ok_0;
    assert forall|record: RecordView| #[trigger]
        answer.records.contains(record) <==> response.answers.contains(record) && record.name
            == request && record.record_type == qtype by {
        dns::law_rrset_is_complete(response.answers, request, qtype, record);
    }
    response
}

/// Whether a server was asked and failed.
pub open spec fn failed<T: DnsTransport, V: DelegatedDnssecVerifier>(
    verifier: V,
    owner: Labels,
    ds: Seq<RecordView>,
    request: Labels,
    qtype: RecordType,
    server: AddressView,
    pre: Wire<T>,
    post: Wire<T>,
) -> bool {
    exists|error: ResolverError| #[trigger]
        server_asked(verifier, owner, ds, request, qtype, pre, server, Err(error), post)
}

/// A delegation fails only after every one of its servers was asked and failed.
pub proof fn law_every_server_is_tried<T: DnsTransport, V: DelegatedDnssecVerifier>(
    verifier: V,
    owner: Labels,
    ds: Seq<RecordView>,
    request: Labels,
    qtype: RecordType,
    servers: Seq<AddressView>,
    i: nat,
    last_error: ResolverError,
    pre: Wire<T>,
    error: ResolverError,
    post: Wire<T>,
    k: int,
) -> (states: (Wire<T>, Wire<T>))
    requires
        servers_tried(
            verifier,
            owner,
            ds,
            request,
            qtype,
            servers,
            i,
            last_error,
            pre,
            Err(error),
            post,
        ),
        i <= k < servers.len(),
    ensures
        failed(verifier, owner, ds, request, qtype, servers[k], states.0, states.1),
    decreases servers.len() - i,
{
    let reply = Err::<AnswerView, ResolverError>(error);
    let (one, mid) = choose|one: Reply, mid: Wire<T>|
        #[trigger] server_asked(
            verifier,
            owner,
            ds,
            request,
            qtype,
            pre,
            servers[i as int],
            one,
            mid,
        ) && match one {
            Ok(_) => reply == one && post == mid,
            Err(error) => servers_tried(
                verifier,
                owner,
                ds,
                request,
                qtype,
                servers,
                i + 1,
                error,
                mid,
                reply,
                post,
            ),
        };
    if k == i {
        (pre, mid)
    } else {
        law_every_server_is_tried(
            verifier,
            owner,
            ds,
            request,
            qtype,
            servers,
            i + 1,
            one->Err_0,
            mid,
            error,
            post,
            k,
        )
    }
}

/// Whether a server of a child zone was asked and failed.
pub open spec fn child_failed<T: DnsTransport, V: DelegatedDnssecVerifier>(
    verifier: V,
    zone: ZoneView,
    referral: ReferralView,
    request: Labels,
    qtype: RecordType,
    server: AddressView,
    pre: Wire<T>,
    post: Wire<T>,
) -> bool {
    exists|error: ResolverError| #[trigger]
        child_server_asked(
            verifier,
            zone,
            referral,
            request,
            qtype,
            pre,
            server,
            Err(error),
            post,
        )
}

/// A referral fails only after every one of the child's servers was asked and
/// failed.
pub proof fn law_every_child_server_is_tried<T: DnsTransport, V: DelegatedDnssecVerifier>(
    verifier: V,
    zone: ZoneView,
    referral: ReferralView,
    request: Labels,
    qtype: RecordType,
    i: nat,
    last_error: ResolverError,
    pre: Wire<T>,
    error: ResolverError,
    post: Wire<T>,
    k: int,
) -> (states: (Wire<T>, Wire<T>))
    requires
        child_servers_tried(
            verifier,
            zone,
            referral,
            request,
            qtype,
            i,
            last_error,
            pre,
            Err(error),
            post,
        ),
        i <= k < referral.servers.len(),
    ensures
        child_failed(
            verifier,
            zone,
            referral,
            request,
            qtype,
            referral.servers[k],
            states.0,
            states.1,
        ),
    decreases referral.servers.len() - i,
{
    let reply = Err::<AnswerView, ResolverError>(error);
    let (one, mid) = choose|one: Reply, mid: Wire<T>|
        #[trigger] child_server_asked(
            verifier,
            zone,
            referral,
            request,
            qtype,
            pre,
            referral.servers[i as int],
            one,
            mid,
        ) && match one {
            Ok(_) => reply == one && post == mid,
            Err(error) => child_servers_tried(
                verifier,
                zone,
                referral,
                request,
                qtype,
                i + 1,
                error,
                mid,
                reply,
                post,
            ),
        };
    if k == i {
        (pre, mid)
    } else {
        law_every_child_server_is_tried(
            verifier,
            zone,
            referral,
            request,
            qtype,
            i + 1,
            one->Err_0,
            mid,
            error,
            post,
            k,
        )
    }
}

/// The keys of a zone are all the key records that its server gave, with all the
/// signatures at its name, under the digests that vouch for them.
pub proof fn law_published_keys_are_complete(
    owner: Labels,
    ds: Seq<RecordView>,
    referral: ReferralView,
    keys: MessageView,
    record: RecordView,
)
    ensures
        zone_from(owner, ds, keys).owner == owner,
        zone_from(owner, ds, keys).ds == ds,
        zone_from(owner, ds, keys).dnskey.contains(record) <==> keys.answers.contains(record)
            && record.name == owner && record.record_type == RecordType::Dnskey,
        zone_from(owner, ds, keys).dnskey_rrsig.contains(record) <==> keys.answers.contains(record)
            && record.name == owner && record.record_type == RecordType::Rrsig,
        link_from(referral, keys).owner == referral.owner,
        link_from(referral, keys).ds == referral.ds_rrset,
        link_from(referral, keys).ds_rrsig == referral.ds_rrsig_rrset,
        link_from(referral, keys).dnskey.contains(record) <==> keys.answers.contains(record)
            && record.name == referral.owner && record.record_type == RecordType::Dnskey,
        link_from(referral, keys).dnskey_rrsig.contains(record) <==> keys.answers.contains(record)
            && record.name == referral.owner && record.record_type == RecordType::Rrsig,
{
    dns::law_rrset_is_complete(keys.answers, owner, RecordType::Dnskey, record);
    dns::law_rrset_is_complete(keys.answers, owner, RecordType::Rrsig, record);
    dns::law_rrset_is_complete(keys.answers, referral.owner, RecordType::Dnskey, record);
    dns::law_rrset_is_complete(keys.answers, referral.owner, RecordType::Rrsig, record);
}

/// What a signed zone's response leads to: a name error has to be proven, a
/// referral is followed, records of the asked type or an alias are walked, and
/// that there is nothing has to be proven too.
pub proof fn law_what_a_signed_response_leads_to<T: DnsTransport, V: DelegatedDnssecVerifier>(
    verifier: V,
    zone: ZoneView,
    request: Labels,
    qtype: RecordType,
    response: MessageView,
    server: AddressView,
    pre: Wire<T>,
    reply: Reply,
    post: Wire<T>,
)
    requires
        zone_keys_read(verifier, zone, request, qtype, response, server, pre, reply, post),
    ensures
        ({
            let trust = TrustView { zone, link: None };
            let name_error = response.flags % 16 == 3;
            let referral = nameserver::referral_in(response, zone.owner, request);
            let answered = dns::has_record(response.answers, request, qtype) || dns::has_record(
                response.answers,
                request,
                RecordType::Cname,
            );
            &&& name_error ==> dnssec::name_error_checked(
                verifier,
                trust,
                request,
                response,
                Seq::empty(),
                reply,
            )
            &&& !name_error && referral is Some ==> referral_followed(
                verifier,
                zone,
                referral->0,
                request,
                qtype,
                pre,
                reply,
                post,
            )
            &&& !name_error && referral is None && answered && zone.dnskey.len() > 0
                && zone.dnskey_rrsig.len() > 0 ==> walked(
                9,
                verifier,
                WalkView { trust, server, request, qtype },
                pre,
                response,
                request,
                Seq::empty(),
                reply,
                post,
            )
            &&& !name_error && referral is None && !answered ==> dnssec::no_data_checked(
                verifier,
                trust,
                request,
                qtype,
                response,
                Seq::empty(),
                reply,
            )
        }),
{
    dns::law_present_records_are_found(response.answers, request, qtype);
    dns::law_present_records_are_found(response.answers, request, RecordType::Cname);
}

} // verus!
