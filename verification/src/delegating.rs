//! Resolvers that start from a Handshake proof: one that answers from the proof
//! alone, and one that goes on to the delegation that the proof names.
use crate::dns;
use crate::dns::{Labels, RecordType, RecordView, ResourceRecord};
use crate::error::ResolverError;
use crate::hash;
use crate::hash::NameHash;
use crate::name;
use crate::name::DnsName;
use crate::nameserver;
use crate::nameserver::{DelegationView, HnsDelegation};
use crate::proven;
use crate::proven::{HnsProofProvider, ProvenNameRecords, ProvenView};
use crate::resolver;
use crate::resolver::{
    AnswerView, DelegatedResolver, Reply, RequestView, ResolutionAnswer, ResolutionRequest,
    Resolver,
};
use crate::text;
use vstd::prelude::*;
use vstd::string::*;

verus! {

/// A proof as it is used for a root and its hash: one for another name, or one
/// that is not secure, is refused.
pub open spec fn proof_under(
    root: Seq<char>,
    name_hash: Seq<u8>,
    evidence: Result<ProvenView, ResolverError>,
) -> Result<ProvenView, ResolverError> {
    match evidence {
        Err(error) => Err(error),
        Ok(proven) => if proven.root_name != root || proven.name_hash != name_hash
            || !proven.secure {
            Err(ResolverError::ProofNameMismatch)
        } else {
            Ok(proven)
        },
    }
}

/// A proof as it is used for a root.
pub open spec fn checked_proof(root: Seq<char>, evidence: Result<ProvenView, ResolverError>) -> Result<
    ProvenView,
    ResolverError,
> {
    proof_under(root, hash::hash_of_name(root), evidence)
}

/// The records that a checked proof gives; a proof that the name does not exist
/// gives the error for that.
pub open spec fn records_of_proof(checked: Result<ProvenView, ResolverError>) -> Result<
    Seq<RecordView>,
    ResolverError,
> {
    match checked {
        Err(error) => Err(error),
        Ok(proven) => if !proven.exists {
            Err(ResolverError::NameNotFound)
        } else {
            Ok(proven.records)
        },
    }
}

/// The records that a proof gives for its root.
pub open spec fn root_records(root: Seq<char>, evidence: Result<ProvenView, ResolverError>) -> Result<
    Seq<RecordView>,
    ResolverError,
> {
    records_of_proof(checked_proof(root, evidence))
}

/// Holds a proof against the root and the hash it was asked for.
pub fn check_proof(
    root: &str,
    name_hash: NameHash,
    evidence: Result<ProvenNameRecords, ResolverError>,
) -> (r: Result<ProvenNameRecords, ResolverError>)
    ensures
        proven::proven_reply(r) == proof_under(
            root@,
            name_hash@,
            proven::proven_reply(evidence),
        ),
{
    match evidence {
        Err(error) => Err(error),
        Ok(proven) => {
            if !text::same_text(&proven.root_name, root) || !proven.name_hash.same(&name_hash)
                || !proven.secure {
                return Err(ResolverError::ProofNameMismatch);
            }
            Ok(proven)
        },
    }
}

/// The answer that the records of a proof give.
pub open spec fn records_answer(
    request_name: Labels,
    qtype: u16,
    records: Result<Seq<RecordView>, ResolverError>,
) -> Reply {
    match records {
        Err(error) => Err(error),
        Ok(records) => Ok(
            AnswerView {
                name: request_name,
                records: dns::selected_records(records, request_name, qtype),
                secure: true,
            },
        ),
    }
}

/// The answer of the proof alone.
pub open spec fn proof_answer(
    request_name: Labels,
    qtype: u16,
    root: Seq<char>,
    evidence: Result<ProvenView, ResolverError>,
) -> Reply {
    records_answer(request_name, qtype, root_records(root, evidence))
}

pub fn answer_from_proof(
    request_name: DnsName,
    qtype: u16,
    root: &str,
    name_hash: NameHash,
    evidence: Result<ProvenNameRecords, ResolverError>,
) -> (r: Result<ResolutionAnswer, ResolverError>)
    ensures
        resolver::answer_reply(r) == records_answer(
            request_name@,
            qtype,
            records_of_proof(
                proof_under(root@, name_hash@, proven::proven_reply(evidence)),
            ),
        ),
{
    match check_proof(root, name_hash, evidence) {
        Err(error) => Err(error),
        Ok(proven) => {
            if !proven.exists {
                return Err(ResolverError::NameNotFound);
            }
            let records = dns::filter_records(&proven.records, &request_name, qtype);
            Ok(ResolutionAnswer { name: request_name, records, secure: true })
        },
    }
}

/// Answers from Handshake proofs alone.
pub struct ProofBackedResolver<P> {
    pub proof_provider: P,
}

impl<P> ProofBackedResolver<P> {
    pub fn new(proof_provider: P) -> (r: Self)
        ensures
            r.proof_provider == proof_provider,
    {
        ProofBackedResolver { proof_provider }
    }

    pub fn into_inner(self) -> (r: P)
        ensures
            r == self.proof_provider,
    {
        self.proof_provider
    }
}

/// Whether asking for the proof of a root may end in `reply`.
pub open spec fn root_asked<P: HnsProofProvider>(
    pre: P,
    request_name: Labels,
    qtype: u16,
    root: Seq<char>,
    reply: Reply,
    post: P,
) -> bool {
    exists|evidence: Result<ProvenView, ResolverError>|
        #[trigger] P::proves(pre, root, hash::hash_of_name(root), evidence, post) && reply
            == proof_answer(request_name, qtype, root, evidence)
}

impl<P: HnsProofProvider> Resolver for ProofBackedResolver<P> {
    open spec fn resolves(pre: Self, request: RequestView, reply: Reply, post: Self) -> bool {
        match name::parse_name(request.qname) {
            None => reply == Err::<AnswerView, _>(ResolverError::UnsupportedBackend) && post
                == pre,
            Some(request_name) => match name::root_label(request.qname) {
                Err(error) => reply == Err::<AnswerView, _>(error) && post == pre,
                Ok(root) => root_asked(
                    pre.proof_provider,
                    request_name,
                    request.qtype,
                    root,
                    reply,
                    post.proof_provider,
                ),
            },
        }
    }

    fn resolve(&mut self, request: &ResolutionRequest) -> (r: Result<
        ResolutionAnswer,
        ResolverError,
    >) {
        let request_name = match DnsName::from_ascii(&request.qname) {
            Some(parsed) => parsed,
            None => {
                return Err(ResolverError::UnsupportedBackend);
            },
        };
        let root = match name::hns_root_label(&request.qname) {
            Ok(label) => label,
            Err(error) => {
                return Err(error);
            },
        };
        let name_hash = match NameHash::from_name(&root) {
            Ok(found) => found,
            Err(error) => {
                return Err(ResolverError::InvalidName(error));
            },
        };
        let ghost pre = *self;
        let evidence = self.proof_provider.prove_name(&root, name_hash);
        assert(P::proves(
            pre.proof_provider,
            root@,
            hash::hash_of_name(root@),
            proven::proven_reply(evidence),
            self.proof_provider,
        ));
        let ghost asked = request_name@;
        let r = answer_from_proof(request_name, request.qtype, &root, name_hash, evidence);
        assert(root_asked(
            pre.proof_provider,
            asked,
            request.qtype,
            root@,
            resolver::answer_reply(r),
            self.proof_provider,
        ));
        r
    }
}

/// The address records among `records` that belong to `owner`.
pub open spec fn addresses_at(owner: Labels) -> spec_fn(RecordView) -> bool {
    |r: RecordView|
        r.name == owner && (r.record_type == RecordType::A || r.record_type == RecordType::Aaaa)
}

fn append_addresses(
    out: &mut Vec<ResourceRecord>,
    records: &Vec<ResourceRecord>,
    owner: &DnsName,
)
    ensures
        dns::record_views(final(out)@) == dns::record_views(old(out)@) + dns::record_views(
            records@,
        ).filter(addresses_at(owner@)),
{
    let ghost start = dns::record_views(out@);
    let ghost all = dns::record_views(records@);
    let ghost pred = addresses_at(owner@);
    let mut i: usize = 0;
    proof {
        dns::lemma_filter_none(all, pred);
        assert(start + Seq::<RecordView>::empty() =~= start);
    }
    while i < records.len()
        invariant
            i <= records.len(),
            all == dns::record_views(records@),
            pred == addresses_at(owner@),
            dns::record_views(out@) == start + all.take(i as int).filter(pred),
        decreases records.len() - i,
    {
        let ghost before = out@;
        proof {
            dns::lemma_filter_step(all, i as int, pred);
            assert(all[i as int] == records@[i as int]@);
        }
        let is_address = match records[i].record_type {
            RecordType::A | RecordType::Aaaa => true,
            _ => false,
        };
        if is_address && records[i].name.same(owner) {
            out.push(records[i].copy());
            proof {
                let kept = all.take(i as int).filter(pred);
                assert(dns::record_views(out@) =~= dns::record_views(before).push(all[i as int]));
                assert((start + kept).push(all[i as int]) =~= start + kept.push(all[i as int]));
            }
        }
        i = i + 1;
    }
    proof {
        dns::lemma_filter_none(all, pred);
    }
}

/// Whether the address of a nameserver need not, or cannot, be looked up in
/// another Handshake proof: it is known, or the name has no usable root.
pub open spec fn needs_no_hydration(records: Seq<RecordView>, ns: Labels) -> bool {
    dns::has_record(records, ns, RecordType::A) || dns::has_record(records, ns, RecordType::Aaaa)
        || ns.len() == 0 || name::hns_label_error(ns.last()) is Some
}

/// Whether adding the addresses of the nameservers `names[i..]` to `records`
/// from their own proofs may end in `outcome`. A nameserver without a proof, or
/// whose name does not exist, stays without an address.
pub open spec fn hydrated<P: HnsProofProvider>(
    pre: P,
    names: Seq<Labels>,
    i: nat,
    records: Seq<RecordView>,
    outcome: Result<Seq<RecordView>, ResolverError>,
    post: P,
) -> bool
    decreases names.len() - i,
{
    if i >= names.len() {
        outcome == Ok::<_, ResolverError>(records) && post == pre
    } else if needs_no_hydration(records, names[i as int]) {
        hydrated(pre, names, i + 1, records, outcome, post)
    } else {
        let ns = names[i as int];
        exists|evidence: Result<ProvenView, ResolverError>, mid: P|
            #[trigger] P::proves(pre, ns.last(), hash::hash_of_name(ns.last()), evidence, mid) && (
            if evidence is Err && evidence->Err_0 is ProofUnavailable {
                hydrated(mid, names, i + 1, records, outcome, post)
            } else {
                match checked_proof(ns.last(), evidence) {
                    Err(error) => outcome == Err::<Seq<RecordView>, _>(error) && post == mid,
                    Ok(proven) => if proven.exists {
                        hydrated(
                            mid,
                            names,
                            i + 1,
                            records + proven.records.filter(addresses_at(ns)),
                            outcome,
                            post,
                        )
                    } else {
                        hydrated(mid, names, i + 1, records, outcome, post)
                    },
                }
            })
    }
}

pub open spec fn records_reply(r: Result<Vec<ResourceRecord>, ResolverError>) -> Result<
    Seq<RecordView>,
    ResolverError,
> {
    match r {
        Ok(records) => Ok(dns::record_views(records@)),
        Err(error) => Err(error),
    }
}

fn hydrate_from<P: HnsProofProvider>(
    proof_provider: &mut P,
    names: &Vec<DnsName>,
    i: usize,
    records: Vec<ResourceRecord>,
) -> (r: Result<Vec<ResourceRecord>, ResolverError>)
    requires
        i <= names.len(),
    ensures
        hydrated(
            *old(proof_provider),
            nameserver::name_views(names@),
            i as nat,
            dns::record_views(records@),
            records_reply(r),
            *final(proof_provider),
        ),
    decreases names.len() - i,
{
    if i >= names.len() {
        return Ok(records);
    }
    let ns = &names[i];
    assert(nameserver::name_views(names@)[i as int] == ns@);
    if dns::has_owner_record(&records, ns, RecordType::A) || dns::has_owner_record(
        &records,
        ns,
        RecordType::Aaaa,
    ) || ns.labels.len() == 0 {
        return hydrate_from(proof_provider, names, i + 1, records);
    }
    let root = ns.labels[ns.labels.len() - 1].clone();
    assert(ns@.last() == root@);
    let name_hash = match NameHash::from_name(&root) {
        Ok(found) => found,
        Err(_) => {
            return hydrate_from(proof_provider, names, i + 1, records);
        },
    };
    let evidence = proof_provider.prove_name(&root, name_hash);
    let unavailable = match &evidence {
        Err(ResolverError::ProofUnavailable) => true,
        _ => false,
    };
    if unavailable {
        return hydrate_from(proof_provider, names, i + 1, records);
    }
    match check_proof(&root, name_hash, evidence) {
        Err(error) => Err(error),
        Ok(proven) => {
            let mut records = records;
            if proven.exists {
                append_addresses(&mut records, &proven.records, ns);
            }
            hydrate_from(proof_provider, names, i + 1, records)
        },
    }
}

/// Adds the addresses of nameservers that lie under other Handshake roots.
pub fn hydrate_hns_nameserver_addresses<P: HnsProofProvider>(
    proof_provider: &mut P,
    delegation_owner: &DnsName,
    records: Vec<ResourceRecord>,
) -> (r: Result<Vec<ResourceRecord>, ResolverError>)
    ensures
        hydrated(
            *old(proof_provider),
            nameserver::ns_names(dns::record_views(records@), delegation_owner@),
            0,
            dns::record_views(records@),
            records_reply(r),
            *final(proof_provider),
        ),
{
    let ns_rrset = dns::records_for(&records, delegation_owner, RecordType::Ns);
    let names = nameserver::target_names(&ns_rrset);
    hydrate_from(proof_provider, &names, 0, records)
}

/// Whether the proven records of the root answer the request without going to
/// the delegation.
pub open spec fn answers_directly(
    records: Seq<RecordView>,
    request_name: Labels,
    root_owner: Labels,
    qtype: u16,
) -> bool {
    ||| request_name == root_owner && dns::selected_records(records, request_name, qtype).len() > 0
    ||| dns::root_answers(request_name, root_owner, qtype)
    ||| !dns::has_record(records, root_owner, RecordType::Ns)
}

/// A delegated reply as it is passed on: without digests in the delegation an
/// answer is never secure, with them it has to be.
pub open spec fn delegated_answer(signed: bool, reply: Reply) -> Reply {
    match reply {
        Err(error) => Err(error),
        Ok(answer) => if !signed {
            Ok(AnswerView { secure: false, ..answer })
        } else if !answer.secure {
            Err(ResolverError::DnssecFailed)
        } else {
            Ok(answer)
        },
    }
}

pub fn conclude_delegated(signed: bool, reply: Result<ResolutionAnswer, ResolverError>) -> (r:
    Result<ResolutionAnswer, ResolverError>)
    ensures
        resolver::answer_reply(r) == delegated_answer(signed, resolver::answer_reply(reply)),
{
    match reply {
        Err(error) => Err(error),
        Ok(answer) => {
            if !signed {
                Ok(ResolutionAnswer { name: answer.name, records: answer.records, secure: false })
            } else if !answer.secure {
                Err(ResolverError::DnssecFailed)
            } else {
                Ok(answer)
            }
        },
    }
}

/// Answers from the proof where it can, else from the delegation in it.
pub struct DelegatingResolver<P, D> {
    pub proof_provider: P,
    pub delegated_resolver: D,
}

impl<P, D> DelegatingResolver<P, D> {
    pub fn new(proof_provider: P, delegated_resolver: D) -> (r: Self)
        ensures
            r.proof_provider == proof_provider,
            r.delegated_resolver == delegated_resolver,
    {
        DelegatingResolver { proof_provider, delegated_resolver }
    }

    pub fn into_parts(self) -> (r: (P, D))
        ensures
            r == (self.proof_provider, self.delegated_resolver),
    {
        (self.proof_provider, self.delegated_resolver)
    }
}

/// What follows once the root's records are proven.
pub open spec fn delegation_followed<P: HnsProofProvider, D: DelegatedResolver>(
    pre: DelegatingResolver<P, D>,
    request: RequestView,
    request_name: Labels,
    root: Seq<char>,
    root_owner: Labels,
    records: Seq<RecordView>,
    reply: Reply,
    post: DelegatingResolver<P, D>,
) -> bool {
    if answers_directly(records, request_name, root_owner, request.qtype) {
        post == pre && reply == Ok::<_, ResolverError>(
            AnswerView {
                name: request_name,
                records: dns::selected_records(records, request_name, request.qtype),
                secure: true,
            },
        )
    } else {
        delegation_entered(
            pre.proof_provider,
            pre.delegated_resolver,
            request,
            root,
            root_owner,
            records,
            reply,
            post.proof_provider,
            post.delegated_resolver,
        )
    }
}

/// Whether completing the delegation's addresses, and then asking under it, may
/// end in `reply`.
pub open spec fn delegation_entered<P: HnsProofProvider, D: DelegatedResolver>(
    provider: P,
    delegated: D,
    request: RequestView,
    root: Seq<char>,
    root_owner: Labels,
    records: Seq<RecordView>,
    reply: Reply,
    provider_after: P,
    delegated_after: D,
) -> bool {
    exists|outcome: Result<Seq<RecordView>, ResolverError>|
        #[trigger] hydrated(
            provider,
            nameserver::ns_names(records, root_owner),
            0,
            records,
            outcome,
            provider_after,
        ) && match outcome {
            Err(error) => reply == Err::<AnswerView, _>(error) && delegated_after == delegated,
            Ok(all) => delegation_asked(
                delegated,
                request,
                DelegationView { root_name: root, owner: root_owner, records: all },
                reply,
                delegated_after,
            ),
        }
}

/// Whether asking under the delegation may end in `reply`.
pub open spec fn delegation_asked<D: DelegatedResolver>(
    pre: D,
    request: RequestView,
    delegation: DelegationView,
    reply: Reply,
    post: D,
) -> bool {
    exists|delegated: Reply|
        #[trigger] D::resolves_delegated(pre, request, delegation, delegated, post) && reply
            == delegated_answer(
            dns::has_record(delegation.records, delegation.owner, RecordType::Ds),
            delegated,
        )
}

/// What follows once request and root are read.
pub open spec fn root_proven<P: HnsProofProvider, D: DelegatedResolver>(
    pre: DelegatingResolver<P, D>,
    request: RequestView,
    request_name: Labels,
    root: Seq<char>,
    root_owner: Labels,
    reply: Reply,
    post: DelegatingResolver<P, D>,
) -> bool {
    exists|evidence: Result<ProvenView, ResolverError>, mid: P|
        #[trigger] P::proves(pre.proof_provider, root, hash::hash_of_name(root), evidence, mid)
            && match root_records(root, evidence) {
            Err(error) => reply == Err::<AnswerView, _>(error) && post
                == (DelegatingResolver::<P, D> {
                proof_provider: mid,
                delegated_resolver: pre.delegated_resolver,
            }),
            Ok(records) => delegation_followed(
                DelegatingResolver::<P, D> {
                    proof_provider: mid,
                    delegated_resolver: pre.delegated_resolver,
                },
                request,
                request_name,
                root,
                root_owner,
                records,
                reply,
                post,
            ),
        }
}

impl<P: HnsProofProvider, D: DelegatedResolver> DelegatingResolver<P, D> {
    fn follow(
        &mut self,
        request: &ResolutionRequest,
        request_name: DnsName,
        root: String,
        root_owner: DnsName,
        records: Vec<ResourceRecord>,
    ) -> (r: Result<ResolutionAnswer, ResolverError>)
        ensures
            delegation_followed(
                *old(self),
                request@,
                request_name@,
                root@,
                root_owner@,
                dns::record_views(records@),
                resolver::answer_reply(r),
                *final(self),
            ),
    {
        let ghost pre = *self;
        let direct = dns::filter_records(&records, &request_name, request.qtype);
        assert(dns::record_views(direct@).len() == direct@.len());
        if (direct.len() > 0 && request_name.same(&root_owner)) || dns::root_records_answer_request(
            &request_name,
            &root_owner,
            request.qtype,
        ) || !dns::has_owner_record(&records, &root_owner, RecordType::Ns) {
            return Ok(ResolutionAnswer { name: request_name, records: direct, secure: true });
        }
        let ghost proven = dns::record_views(records@);
        let outcome = hydrate_hns_nameserver_addresses(
            &mut self.proof_provider,
            &root_owner,
            records,
        );
        let ghost mid = self.proof_provider;
        assert(hydrated(
            pre.proof_provider,
            nameserver::ns_names(proven, root_owner@),
            0,
            proven,
            records_reply(outcome),
            mid,
        ));
        let all = match outcome {
            Ok(all) => all,
            Err(error) => {
                assert(delegation_entered(
                    pre.proof_provider,
                    pre.delegated_resolver,
                    request@,
                    root@,
                    root_owner@,
                    proven,
                    Err::<AnswerView, _>(error),
                    self.proof_provider,
                    self.delegated_resolver,
                ));
                return Err(error);
            },
        };
        let delegation = HnsDelegation { root_name: root, owner: root_owner, records: all };
        let signed = dns::has_owner_record(&delegation.records, &delegation.owner, RecordType::Ds);
        let delegated = self.delegated_resolver.resolve_delegated(request, &delegation);
        let ghost raw = resolver::answer_reply(delegated);
        assert(D::resolves_delegated(
            pre.delegated_resolver,
            request@,
            delegation@,
            raw,
            self.delegated_resolver,
        ));
        let r = conclude_delegated(signed, delegated);
        assert(delegation_asked(
            pre.delegated_resolver,
            request@,
            delegation@,
            resolver::answer_reply(r),
            self.delegated_resolver,
        ));
        assert(delegation_entered(
            pre.proof_provider,
            pre.delegated_resolver,
            request@,
            root@,
            root_owner@,
            proven,
            resolver::answer_reply(r),
            self.proof_provider,
            self.delegated_resolver,
        ));
        r
    }
}

impl<P: HnsProofProvider, D: DelegatedResolver> Resolver for DelegatingResolver<P, D> {
    open spec fn resolves(pre: Self, request: RequestView, reply: Reply, post: Self) -> bool {
        match name::parse_name(request.qname) {
            None => reply == Err::<AnswerView, _>(ResolverError::UnsupportedBackend) && post
                == pre,
            Some(request_name) => match name::root_label(request.qname) {
                Err(error) => reply == Err::<AnswerView, _>(error) && post == pre,
                Ok(root) => match name::parse_name(root) {
                    None => reply == Err::<AnswerView, _>(ResolverError::UnsupportedBackend)
                        && post == pre,
                    Some(root_owner) => root_proven(
                        pre,
                        request,
                        request_name,
                        root,
                        root_owner,
                        reply,
                        post,
                    ),
                },
            },
        }
    }

    fn resolve(&mut self, request: &ResolutionRequest) -> (r: Result<
        ResolutionAnswer,
        ResolverError,
    >) {
        let request_name = match DnsName::from_ascii(&request.qname) {
            Some(parsed) => parsed,
            None => {
                return Err(ResolverError::UnsupportedBackend);
            },
        };
        let root = match name::hns_root_label(&request.qname) {
            Ok(label) => label,
            Err(error) => {
                return Err(error);
            },
        };
        let root_owner = match DnsName::from_ascii(&root) {
            Some(parsed) => parsed,
            None => {
                return Err(ResolverError::UnsupportedBackend);
            },
        };
        let name_hash = match NameHash::from_name(&root) {
            Ok(found) => found,
            Err(error) => {
                return Err(ResolverError::InvalidName(error));
            },
        };
        let ghost pre = *self;
        let evidence = self.proof_provider.prove_name(&root, name_hash);
        let ghost raw = proven::proven_reply(evidence);
        let ghost mid = self.proof_provider;
        assert(P::proves(pre.proof_provider, root@, hash::hash_of_name(root@), raw, mid));
        match check_proof(&root, name_hash, evidence) {
            Err(error) => Err(error),
            Ok(proven) => {
                if !proven.exists {
                    return Err(ResolverError::NameNotFound);
                }
                self.follow(request, request_name, root, root_owner, proven.records)
            },
        }
    }
}

/// An answer that comes through a delegation without digests is never secure,
/// and one through a delegation with digests always is.
pub proof fn law_delegated_security<D: DelegatedResolver>(
    pre: D,
    request: RequestView,
    delegation: DelegationView,
    answer: AnswerView,
    post: D,
)
    requires
        delegation_asked(pre, request, delegation, Ok(answer), post),
    ensures
        answer.secure <==> dns::has_record(
            delegation.records,
            delegation.owner,
            RecordType::Ds,
        ),
{
}

/// A verified proof that the name does not exist is answered as such, whatever
/// is asked for.
pub proof fn law_non_inclusion_is_name_not_found(
    request_name: Labels,
    qtype: u16,
    root: Seq<char>,
    proven: ProvenView,
)
    requires
        proven.root_name == root,
        proven.name_hash == hash::hash_of_name(root),
        proven.secure,
        !proven.exists,
    ensures
        proof_answer(request_name, qtype, root, Ok(proven)) == Err::<AnswerView, _>(
            ResolverError::NameNotFound,
        ),
        root_records(root, Ok(proven)) == Err::<Seq<RecordView>, _>(ResolverError::NameNotFound),
{
}

/// No answer rests on a proof for another root, another hash, or one that is
/// not secure.
pub proof fn law_mismatched_proof_gives_no_answer(
    request_name: Labels,
    qtype: u16,
    root: Seq<char>,
    proven: ProvenView,
)
    requires
        proven.root_name != root || proven.name_hash != hash::hash_of_name(root) || !proven.secure,
    ensures
        proof_answer(request_name, qtype, root, Ok(proven)) == Err::<AnswerView, _>(
            ResolverError::ProofNameMismatch,
        ),
        root_records(root, Ok(proven)) == Err::<Seq<RecordView>, _>(
            ResolverError::ProofNameMismatch,
        ),
{
}

/// Whether a record is an address of one of the nameservers, and stands in a
/// proof for the Handshake root of that nameserver's own name.
pub open spec fn is_proven_address<P: HnsProofProvider>(names: Seq<Labels>, record: RecordView) -> bool {
    exists|k: int, pre: P, evidence: Result<ProvenView, ResolverError>, mid: P|
        0 <= k < names.len() && #[trigger] P::proves(
            pre,
            names[k].last(),
            hash::hash_of_name(names[k].last()),
            evidence,
            mid,
        ) && address_stands_in(names[k], evidence, record)
}

pub open spec fn address_stands_in(
    ns: Labels,
    evidence: Result<ProvenView, ResolverError>,
    record: RecordView,
) -> bool {
    match checked_proof(ns.last(), evidence) {
        Ok(proven) => proven.exists && proven.records.contains(record) && addresses_at(ns)(record),
        Err(_) => false,
    }
}

/// Completing a delegation keeps its records, and adds only addresses that a
/// verified proof of their own shows.
pub proof fn law_added_addresses_are_proven<P: HnsProofProvider>(
    pre: P,
    names: Seq<Labels>,
    i: nat,
    records: Seq<RecordView>,
    all: Seq<RecordView>,
    post: P,
)
    requires
        hydrated(pre, names, i, records, Ok(all), post),
    ensures
        records.len() <= all.len(),
        all.take(records.len() as int) == records,
        forall|j: int|
            records.len() <= j < all.len() ==> is_proven_address::<P>(names, #[trigger] all[j]),
    decreases names.len() - i,
{
    if i >= names.len() {
        assert(all.take(records.len() as int) =~= records);
    } else if needs_no_hydration(records, names[i as int]) {
        law_added_addresses_are_proven(pre, names, i + 1, records, all, post);
    } else {
        let ns = names[i as int];
        let (evidence, mid) = choose|evidence: Result<ProvenView, ResolverError>, mid: P|
            #[trigger] P::proves(pre, ns.last(), hash::hash_of_name(ns.last()), evidence, mid) && (
            if evidence is Err && evidence->Err_0 is ProofUnavailable {
                hydrated(mid, names, i + 1, records, Ok(all), post)
            } else {
                match checked_proof(ns.last(), evidence) {
                    Err(error) => false,
                    Ok(proven) => if proven.exists {
                        hydrated(
                            mid,
                            names,
                            i + 1,
                            records + proven.records.filter(addresses_at(ns)),
                            Ok(all),
                            post,
                        )
                    } else {
                        hydrated(mid, names, i + 1, records, Ok(all), post)
                    },
                }
            });
        if evidence is Err && evidence->Err_0 is ProofUnavailable {
            law_added_addresses_are_proven(mid, names, i + 1, records, all, post);
        } else {
            let proven = checked_proof(ns.last(), evidence)->Ok_0;
            if proven.exists {
                let added = proven.records.filter(addresses_at(ns));
                let longer = records + added;
                law_added_addresses_are_proven(mid, names, i + 1, longer, all, post);
                assert(all.take(records.len() as int) =~= records) by {
                    assert(all.take(longer.len() as int) == longer);
                    assert forall|j: int| 0 <= j < records.len() implies all[j] == records[j] by {
                        assert(all.take(longer.len() as int)[j] == longer[j]);
                    }
                }
                assert forall|j: int| records.len() <= j < all.len() implies is_proven_address::<P>(
                    names,
                    #[trigger] all[j],
                ) by {
                    if j < longer.len() {
                        assert(all.take(longer.len() as int)[j] == longer[j]);
                        dns::lemma_filter_member(
                            proven.records,
                            addresses_at(ns),
                            j - records.len(),
                        );
                        assert(address_stands_in(names[i as int], evidence, all[j]));
                        assert(P::proves(
                            pre,
                            names[i as int].last(),
                            hash::hash_of_name(names[i as int].last()),
                            evidence,
                            mid,
                        ));
                    }
                }
            } else {
                law_added_addresses_are_proven(mid, names, i + 1, records, all, post);
            }
        }
    }
}

/// A secure proof of an existing name, made for the root that was asked for,
/// answers with the proven records that have the name and type of the request:
/// all of them, no others, and securely.
pub proof fn law_proven_records_are_answered(
    request_name: Labels,
    qtype: u16,
    root: Seq<char>,
    proven: ProvenView,
)
    requires
        proven.root_name == root,
        proven.name_hash == hash::hash_of_name(root),
        proven.secure,
        proven.exists,
    ensures
        proof_answer(request_name, qtype, root, Ok(proven)) matches Ok(answer) && answer.secure
            && answer.name == request_name && forall|record: RecordView| #[trigger]
            answer.records.contains(record) <==> proven.records.contains(record) && (qtype
                == 65_535 || (record.name == request_name && record.record_type
                == dns::record_type_of(qtype))),
{
    let selected = dns::selected_records(proven.records, request_name, qtype);
    assert forall|record: RecordView| #[trigger]
        selected.contains(record) <==> proven.records.contains(record) && (qtype == 65_535 || (
        record.name == request_name && record.record_type == dns::record_type_of(qtype))) by {
        dns::law_selected_records_are_those_asked_for(
            proven.records,
            request_name,
            qtype,
            record,
        );
    }
}

/// A request is answered from the proof itself, without asking a nameserver, where
/// it is for the proven name and the proof holds a record of its type, or where the
/// proof names no nameserver.
pub proof fn law_the_proof_answers_what_it_holds<P: HnsProofProvider, D: DelegatedResolver>(
    pre: DelegatingResolver<P, D>,
    request: RequestView,
    request_name: Labels,
    root: Seq<char>,
    root_owner: Labels,
    records: Seq<RecordView>,
    reply: Reply,
    post: DelegatingResolver<P, D>,
)
    requires
        delegation_followed(
            pre,
            request,
            request_name,
            root,
            root_owner,
            records,
            reply,
            post,
        ),
        (request_name == root_owner && exists|i: int|
            0 <= i < records.len() && (#[trigger] records[i]).name == root_owner
                && records[i].record_type == dns::record_type_of(request.qtype)) || (forall|i: int|
            0 <= i < records.len() && (#[trigger] records[i]).name == root_owner
                ==> records[i].record_type != RecordType::Ns),
    ensures
        post == pre,
        reply matches Ok(answer) && answer.secure && answer.name == request_name && forall|
            record: RecordView,
        | #[trigger]
            answer.records.contains(record) <==> records.contains(record) && (request.qtype
                == 65_535 || (record.name == request_name && record.record_type
                == dns::record_type_of(request.qtype))),
{
    let selected = dns::selected_records(records, request_name, request.qtype);
    if request_name == root_owner && exists|i: int|
        0 <= i < records.len() && (#[trigger] records[i]).name == root_owner
            && records[i].record_type == dns::record_type_of(request.qtype) {
        let i = choose|i: int|
            0 <= i < records.len() && (#[trigger] records[i]).name == root_owner
                && records[i].record_type == dns::record_type_of(request.qtype);
        assert(records.contains(records[i]));
        dns::law_selected_records_are_those_asked_for(
            records,
            request_name,
            request.qtype,
            records[i],
        );
        assert(selected.len() > 0);
    }
    assert(answers_directly(records, request_name, root_owner, request.qtype));
    assert forall|record: RecordView| #[trigger]
        selected.contains(record) <==> records.contains(record) && (request.qtype == 65_535 || (
        record.name == request_name && record.record_type == dns::record_type_of(
            request.qtype,
        ))) by {
        dns::law_selected_records_are_those_asked_for(
            records,
            request_name,
            request.qtype,
            record,
        );
    }
}

/// A request below a proven name that has nameservers is asked of them.
pub proof fn law_delegated_names_are_asked_for<P: HnsProofProvider, D: DelegatedResolver>(
    pre: DelegatingResolver<P, D>,
    request: RequestView,
    request_name: Labels,
    root: Seq<char>,
    root_owner: Labels,
    records: Seq<RecordView>,
    reply: Reply,
    post: DelegatingResolver<P, D>,
    at: int,
)
    requires
        delegation_followed(
            pre,
            request,
            request_name,
            root,
            root_owner,
            records,
            reply,
            post,
        ),
        request_name != root_owner,
        0 <= at < records.len(),
        records[at].name == root_owner,
        records[at].record_type == RecordType::Ns,
    ensures
        delegation_entered(
            pre.proof_provider,
            pre.delegated_resolver,
            request,
            root,
            root_owner,
            records,
            reply,
            post.proof_provider,
            post.delegated_resolver,
        ),
{
    assert(dns::has_record(records, root_owner, RecordType::Ns));
}

/// The address of a nameserver is looked up exactly where the records hold none of
/// either kind and its name lies under a Handshake name.
pub proof fn law_which_nameservers_are_looked_up(records: Seq<RecordView>, ns: Labels)
    ensures
        !needs_no_hydration(records, ns) <==> ns.len() > 0 && name::hns_label_error(ns.last())
            is None && forall|i: int|
            0 <= i < records.len() && (#[trigger] records[i]).name == ns
                ==> records[i].record_type != RecordType::A && records[i].record_type
                != RecordType::Aaaa,
{
    if forall|i: int|
        0 <= i < records.len() && (#[trigger] records[i]).name == ns ==> records[i].record_type
            != RecordType::A && records[i].record_type != RecordType::Aaaa {
        assert(!dns::has_record(records, ns, RecordType::A));
        assert(!dns::has_record(records, ns, RecordType::Aaaa));
    } else {
        let i = choose|i: int|
            0 <= i < records.len() && (#[trigger] records[i]).name == ns && !(
            records[i].record_type != RecordType::A && records[i].record_type
                != RecordType::Aaaa);
        assert(dns::has_record(records, ns, records[i].record_type));
    }
}

/// Completing a delegation loses none of its records.
pub proof fn law_completing_keeps_the_records<P: HnsProofProvider>(
    pre: P,
    names: Seq<Labels>,
    i: nat,
    records: Seq<RecordView>,
    all: Seq<RecordView>,
    post: P,
)
    requires
        hydrated(pre, names, i, records, Ok(all), post),
    ensures
        records.len() <= all.len(),
        all.take(records.len() as int) == records,
    decreases names.len() - i,
{
    let outcome = Ok::<Seq<RecordView>, ResolverError>(all);
    if i >= names.len() {
        assert(all.take(records.len() as int) =~= records);
    } else if needs_no_hydration(records, names[i as int]) {
        law_completing_keeps_the_records(pre, names, i + 1, records, all, post);
    } else {
        let (evidence, mid) = lemma_one_looked_up(pre, names, i, records, outcome, post);
        let ns = names[i as int];
        let checked = checked_proof(ns.last(), evidence);
        if !(evidence is Err && evidence->Err_0 is ProofUnavailable) && checked->Ok_0.exists {
            let more = records + checked->Ok_0.records.filter(addresses_at(ns));
            law_completing_keeps_the_records(mid, names, i + 1, more, all, post);
            assert(all.take(records.len() as int) =~= more.take(records.len() as int)) by {
                assert(all.take(more.len() as int) == more);
                assert forall|k: int| 0 <= k < records.len() implies all[k] == more[k] by {
                    assert(all.take(more.len() as int)[k] == all[k]);
                }
            }
            assert(more.take(records.len() as int) =~= records);
        } else {
            law_completing_keeps_the_records(mid, names, i + 1, records, all, post);
        }
    }
}

/// Where the proof of a nameserver's own name gives addresses for it, all of them
/// are added, of either kind.
pub proof fn law_proven_addresses_are_added<P: HnsProofProvider>(
    pre: P,
    names: Seq<Labels>,
    i: nat,
    records: Seq<RecordView>,
    all: Seq<RecordView>,
    post: P,
) -> (found: (Result<ProvenView, ResolverError>, P))
    requires
        hydrated(pre, names, i, records, Ok(all), post),
        i < names.len(),
        !needs_no_hydration(records, names[i as int]),
    ensures
        P::proves(
            pre,
            names[i as int].last(),
            hash::hash_of_name(names[i as int].last()),
            found.0,
            found.1,
        ),
        found.0 matches Ok(proven) ==> proven.exists ==> forall|k: int|
            0 <= k < proven.records.len() && (#[trigger] proven.records[k]).name
                == names[i as int] && (proven.records[k].record_type == RecordType::A
                || proven.records[k].record_type == RecordType::Aaaa) ==> all.contains(
                proven.records[k],
            ),
{
    let outcome = Ok::<Seq<RecordView>, ResolverError>(all);
    let (evidence, mid) = lemma_one_looked_up(pre, names, i, records, outcome, post);
    let ns = names[i as int];
    if evidence is Ok && evidence->Ok_0.exists {
        let proven = evidence->Ok_0;
        let added = proven.records.filter(addresses_at(ns));
        let more = records + added;
        law_completing_keeps_the_records(mid, names, i + 1, more, all, post);
        assert forall|k: int|
            0 <= k < proven.records.len() && (#[trigger] proven.records[k]).name == ns && (
            proven.records[k].record_type == RecordType::A || proven.records[k].record_type
                == RecordType::Aaaa) implies all.contains(proven.records[k]) by {
            let record = proven.records[k];
            assert(proven.records.contains(record));
            dns::lemma_filter_members(proven.records, addresses_at(ns), record);
            let m = choose|m: int| 0 <= m < added.len() && added[m] == record;
            assert(more[records.len() + m] == record);
            assert(all.take(more.len() as int)[records.len() + m] == record);
            assert(all[records.len() + m] == record);
        }
    }
    (evidence, mid)
}

proof fn lemma_one_looked_up<P: HnsProofProvider>(
    pre: P,
    names: Seq<Labels>,
    i: nat,
    records: Seq<RecordView>,
    outcome: Result<Seq<RecordView>, ResolverError>,
    post: P,
) -> (found: (Result<ProvenView, ResolverError>, P))
    requires
        hydrated(pre, names, i, records, outcome, post),
        i < names.len(),
        !needs_no_hydration(records, names[i as int]),
    ensures
        ({
            let ns = names[i as int];
            let (evidence, mid) = found;
            &&& P::proves(pre, ns.last(), hash::hash_of_name(ns.last()), evidence, mid)
            &&& if evidence is Err && evidence->Err_0 is ProofUnavailable {
                hydrated(mid, names, i + 1, records, outcome, post)
            } else {
                match checked_proof(ns.last(), evidence) {
                    Err(error) => outcome == Err::<Seq<RecordView>, _>(error) && post == mid,
                    Ok(proven) => if proven.exists {
                        hydrated(
                            mid,
                            names,
                            i + 1,
                            records + proven.records.filter(addresses_at(ns)),
                            outcome,
                            post,
                        )
                    } else {
                        hydrated(mid, names, i + 1, records, outcome, post)
                    },
                }
            }
        }),
{
    let ns = names[i as int];
    choose|evidence: Result<ProvenView, ResolverError>, mid: P|
        #[trigger] P::proves(pre, ns.last(), hash::hash_of_name(ns.last()), evidence, mid) && (
        if evidence is Err && evidence->Err_0 is ProofUnavailable {
            hydrated(mid, names, i + 1, records, outcome, post)
        } else {
            match checked_proof(ns.last(), evidence) {
                Err(error) => outcome == Err::<Seq<RecordView>, _>(error) && post == mid,
                Ok(proven) => if proven.exists {
                    hydrated(
                        mid,
                        names,
                        i + 1,
                        records + proven.records.filter(addresses_at(ns)),
                        outcome,
                        post,
                    )
                } else {
                    hydrated(mid, names, i + 1, records, outcome, post)
                },
            }
        })
}

} // verus!
