use hns_browser::authoritative::AuthoritativeDnssecResolver;
use hns_browser::cache::CachedResolver;
use hns_browser::delegating::{answer_from_proof, DelegatingResolver, ProofBackedResolver};
use hns_browser::dns::{DnsMessage, RecordType, ResourceRecord, ServerAddress};
use hns_browser::dnssec::{
    resolve_secure_no_data, ChildKeys, DelegatedChildDnssecNameErrorValidation,
    DelegatedChildDnssecNoDataValidation, DelegatedChildDnssecValidation,
    DelegatedDnssecNameErrorValidation, DelegatedDnssecNoDataValidation, DelegatedDnssecValidation,
    DelegatedDnssecVerifier, DnsTransport, Trust, ZoneKeys,
};
use hns_browser::error::{NameHashError, ResolverError};
use hns_browser::hash::{Hash256, NameHash};
use hns_browser::name::{classify_name, hns_root_label, DnsName, NameClass};
use hns_browser::nameserver::{next_dns_query_id, HnsDelegation, QueryIds};
use hns_browser::proven::{
    HnsProofProvider, HnsResourceValueProvider, ProvenNameRecords, ResourcePayload,
    ResourceValueAnchor, ResourceValueProofProvider, VerifiedResourceValue,
};
use hns_browser::resolver::{
    DelegatedResolver, FailClosedResolver, ResolutionAnswer, ResolutionRequest, Resolver,
};
use hns_browser::store::{
    file_under, look_up, sqlite_anchor, MemoryResourceValueProvider, ResourceValueCacheStats,
    ResourceValueRow, SqliteResourceValueProvider,
};
use std::collections::HashMap;
use std::sync::{Arc, Mutex};

const DEFAULT_HANDSHAKE_RESOURCE_TTL: u32 = 21_600;
const DNSSEC_DO_FLAG: u32 = 0x8000;
const DNS_OPT_RECORD_TYPE: u16 = 41;
const DNS_RCODE_NOERROR: u16 = 0;
const DNS_RCODE_NXDOMAIN: u16 = 3;

type DnsRequestLog = Arc<Mutex<Vec<(ServerAddress, String, u16, bool)>>>;
type DnsValidationLog = Arc<Mutex<Vec<(usize, usize, usize, usize, usize)>>>;
type DnsResponseMap = HashMap<(String, u16), DnsResponseFixture>;

fn name(text: &str) -> DnsName {
    DnsName::from_ascii(text).unwrap()
}

fn name_hash(text: &str) -> NameHash {
    NameHash::from_name(text).unwrap()
}

fn request(qname: &str, qtype: u16) -> ResolutionRequest {
    ResolutionRequest { qname: qname.to_owned(), qtype }
}

fn name_bytes(text: &str) -> Vec<u8> {
    let mut out = Vec::new();
    for label in text.split('.') {
        out.push(label.len() as u8);
        out.extend(label.as_bytes());
    }
    out.push(0);
    out
}

fn record(name: DnsName, record_type: RecordType, rdata: Vec<u8>) -> ResourceRecord {
    ResourceRecord { name, record_type, class: 1, ttl: 300, rdata, target: None }
}

fn targeted(owner: &str, record_type: RecordType, target: &str) -> ResourceRecord {
    ResourceRecord {
        target: Some(name(target)),
        ..record(name(owner), record_type, name_bytes(target))
    }
}

fn ns_record(owner: &str, target: &str) -> ResourceRecord {
    targeted(owner, RecordType::Ns, target)
}

fn cname_record(owner: &str, target: &str) -> ResourceRecord {
    targeted(owner, RecordType::Cname, target)
}

fn ds_record(owner: &str) -> ResourceRecord {
    record(name(owner), RecordType::Ds, vec![0, 1, 8, 2, 0xaa])
}

fn rrsig_record(owner: &str) -> ResourceRecord {
    record(name(owner), RecordType::Rrsig, vec![0, 1, 8, 1])
}

fn nsec_record(owner: &str) -> ResourceRecord {
    record(name(owner), RecordType::Nsec, name_bytes(owner))
}

fn dnskey_record(owner: &str) -> ResourceRecord {
    record(name(owner), RecordType::Dnskey, vec![1, 2, 3, 4])
}

fn payload(bytes: Vec<u8>, decoded: Vec<ResourceRecord>) -> ResourcePayload {
    ResourcePayload { bytes, decoded: Ok(decoded) }
}

/// A value with one name server, and the record that it holds.
fn ns_value(owner: &str, target: &str) -> ResourcePayload {
    let mut bytes = vec![0, 1];
    bytes.extend(name_bytes(target));
    payload(
        bytes,
        vec![ResourceRecord { ttl: DEFAULT_HANDSHAKE_RESOURCE_TTL, ..ns_record(owner, target) }],
    )
}

fn opaque_value(bytes: Vec<u8>) -> ResourcePayload {
    ResourcePayload { bytes, decoded: Err("malformed".to_owned()) }
}

struct CountingResolver {
    count: usize,
}

impl Resolver for CountingResolver {
    fn resolve(&mut self, _request: &ResolutionRequest) -> Result<ResolutionAnswer, ResolverError> {
        self.count += 1;
        Ok(ResolutionAnswer { name: DnsName::root(), records: Vec::new(), secure: true })
    }
}

struct CountingNameNotFoundResolver {
    count: usize,
}

impl Resolver for CountingNameNotFoundResolver {
    fn resolve(&mut self, _request: &ResolutionRequest) -> Result<ResolutionAnswer, ResolverError> {
        self.count += 1;
        Err(ResolverError::NameNotFound)
    }
}

struct StaticProofProvider {
    proven: ProvenNameRecords,
}

impl HnsProofProvider for StaticProofProvider {
    fn prove_name(
        &mut self,
        _root_name: &str,
        _name_hash: NameHash,
    ) -> Result<ProvenNameRecords, ResolverError> {
        Ok(self.proven.clone())
    }
}

struct MapProofProvider {
    proven: HashMap<String, ProvenNameRecords>,
}

impl HnsProofProvider for MapProofProvider {
    fn prove_name(
        &mut self,
        root_name: &str,
        name_hash: NameHash,
    ) -> Result<ProvenNameRecords, ResolverError> {
        let proven = self
            .proven
            .get(root_name)
            .cloned()
            .ok_or(ResolverError::ProofUnavailable)?;
        if proven.root_name != root_name || proven.name_hash != name_hash || !proven.secure {
            return Err(ResolverError::ProofNameMismatch);
        }
        Ok(proven)
    }
}

struct StaticValueProvider {
    verified: VerifiedResourceValue,
}

impl HnsResourceValueProvider for StaticValueProvider {
    fn prove_resource_value(
        &mut self,
        _root_name: &str,
        _name_hash: NameHash,
    ) -> Result<VerifiedResourceValue, ResolverError> {
        Ok(self.verified.copy())
    }
}

struct ScriptedResolver {
    responses: Vec<(ResolutionRequest, ResolutionAnswer)>,
    requests: Arc<Mutex<Vec<ResolutionRequest>>>,
}

impl Resolver for ScriptedResolver {
    fn resolve(&mut self, request: &ResolutionRequest) -> Result<ResolutionAnswer, ResolverError> {
        self.requests.lock().unwrap().push(request.clone());
        self.responses
            .iter()
            .find(|(candidate, _)| candidate == request)
            .map(|(_, answer)| answer.clone())
            .ok_or(ResolverError::ProofUnavailable)
    }
}

struct CapturingDelegatedResolver {
    delegations: Arc<Mutex<Vec<HnsDelegation>>>,
}

impl DelegatedResolver for CapturingDelegatedResolver {
    fn resolve_delegated(
        &mut self,
        request: &ResolutionRequest,
        delegation: &HnsDelegation,
    ) -> Result<ResolutionAnswer, ResolverError> {
        self.delegations.lock().unwrap().push(delegation.clone());
        Ok(ResolutionAnswer {
            name: name(&request.qname),
            records: vec![record(name(&request.qname), RecordType::A, vec![127, 0, 0, 1])],
            secure: true,
        })
    }
}

#[derive(Clone, Copy, PartialEq)]
enum ScriptedUdpBehavior {
    Normal,
    Truncated,
    TransportError,
    InvalidResponse,
}

#[derive(Clone, Default)]
struct DnsResponseFixture {
    rcode: u16,
    answers: Vec<ResourceRecord>,
    authorities: Vec<ResourceRecord>,
    additionals: Vec<ResourceRecord>,
}

struct ScriptedDnsTransport {
    responses: DnsResponseMap,
    server_responses: Vec<(ServerAddress, String, u16, DnsResponseFixture)>,
    requests: DnsRequestLog,
    udp_behavior: ScriptedUdpBehavior,
}

fn dns_response(query: &DnsMessage, fixture: DnsResponseFixture, truncated: bool) -> DnsMessage {
    DnsMessage {
        id: query.id,
        flags: (if truncated { 0x8600 } else { 0x8400 }) | fixture.rcode,
        questions: query.questions.clone(),
        answers: fixture.answers,
        authorities: fixture.authorities,
        additionals: fixture.additionals,
    }
}

impl ScriptedDnsTransport {
    fn fixture(&self, server: &ServerAddress, qname: &str, qtype: u16) -> DnsResponseFixture {
        self.server_responses
            .iter()
            .find(|(known, name, code, _)| known == server && name == qname && *code == qtype)
            .map(|(_, _, _, fixture)| fixture)
            .or_else(|| self.responses.get(&(qname.to_owned(), qtype)))
            .cloned()
            .unwrap_or_default()
    }
}

impl DnsTransport for ScriptedDnsTransport {
    fn exchange_udp(
        &mut self,
        server: &ServerAddress,
        query: &DnsMessage,
    ) -> Result<DnsMessage, ResolverError> {
        let question = query.questions[0].clone();
        assert_eq!(query.additionals.len(), 1);
        assert_eq!(query.additionals[0].record_type, RecordType::Unknown(DNS_OPT_RECORD_TYPE));
        assert_eq!(query.additionals[0].ttl, DNSSEC_DO_FLAG);
        let qname = question.name.to_text();
        self.requests.lock().unwrap().push((
            server.clone(),
            qname.clone(),
            question.record_type.code(),
            false,
        ));
        match self.udp_behavior {
            ScriptedUdpBehavior::Normal => {}
            ScriptedUdpBehavior::Truncated => {
                return Ok(dns_response(query, DnsResponseFixture::default(), true));
            }
            ScriptedUdpBehavior::TransportError => {
                return Err(ResolverError::DnsTransport("udp failed".to_owned()));
            }
            ScriptedUdpBehavior::InvalidResponse => return Err(ResolverError::InvalidDnsResponse),
        }
        let fixture = self.fixture(server, &qname, question.record_type.code());
        Ok(dns_response(query, fixture, false))
    }

    fn exchange_tcp(
        &mut self,
        server: &ServerAddress,
        query: &DnsMessage,
    ) -> Result<DnsMessage, ResolverError> {
        let question = query.questions[0].clone();
        let qname = question.name.to_text();
        self.requests.lock().unwrap().push((
            server.clone(),
            qname.clone(),
            question.record_type.code(),
            true,
        ));
        let fixture = self.fixture(server, &qname, question.record_type.code());
        Ok(dns_response(query, fixture, false))
    }
}

#[derive(Default)]
struct StaticDnssecVerifier {
    positive_valid: bool,
    no_data_valid: bool,
    name_error_valid: bool,
    child_positive_valid: bool,
    child_no_data_valid: bool,
    child_name_error_valid: bool,
    validations: DnsValidationLog,
    no_data_validations: DnsValidationLog,
    name_error_validations: DnsValidationLog,
    child_validations: DnsValidationLog,
    child_no_data_validations: DnsValidationLog,
    child_name_error_validations: DnsValidationLog,
}

impl DelegatedDnssecVerifier for StaticDnssecVerifier {
    fn validate_positive_rrset(
        &self,
        input: DelegatedDnssecValidation<'_>,
    ) -> Result<bool, ResolverError> {
        self.validations.lock().unwrap().push((
            input.ds_rrset.len(),
            input.dnskey_rrset.len(),
            input.dnskey_rrsig_rrset.len(),
            input.target_rrset.len(),
            input.target_rrsig_rrset.len(),
        ));
        Ok(self.positive_valid)
    }

    fn validate_no_data(
        &self,
        input: DelegatedDnssecNoDataValidation<'_>,
    ) -> Result<bool, ResolverError> {
        self.no_data_validations.lock().unwrap().push((
            input.ds_rrset.len(),
            input.dnskey_rrset.len(),
            input.dnskey_rrsig_rrset.len(),
            input.nsec_rrset.len() + input.nsec3_rrset.len(),
            input.nsec_rrsig_rrset.len() + input.nsec3_rrsig_rrset.len(),
        ));
        Ok(self.no_data_valid)
    }

    fn validate_name_error(
        &self,
        input: DelegatedDnssecNameErrorValidation<'_>,
    ) -> Result<bool, ResolverError> {
        self.name_error_validations.lock().unwrap().push((
            input.ds_rrset.len(),
            input.dnskey_rrset.len(),
            input.dnskey_rrsig_rrset.len(),
            input.nsec_rrset.len() + input.nsec3_rrset.len(),
            input.nsec_rrsig_rrset.len() + input.nsec3_rrsig_rrset.len(),
        ));
        Ok(self.name_error_valid)
    }

    fn validate_child_positive_rrset(
        &self,
        input: DelegatedChildDnssecValidation<'_>,
    ) -> Result<bool, ResolverError> {
        self.child_validations.lock().unwrap().push((
            input.child_ds_rrset.len(),
            input.child_dnskey_rrset.len(),
            input.child_dnskey_rrsig_rrset.len(),
            input.target_rrset.len(),
            input.target_rrsig_rrset.len(),
        ));
        Ok(self.child_positive_valid)
    }

    fn validate_child_no_data(
        &self,
        input: DelegatedChildDnssecNoDataValidation<'_>,
    ) -> Result<bool, ResolverError> {
        self.child_no_data_validations.lock().unwrap().push((
            input.child_ds_rrset.len(),
            input.child_dnskey_rrset.len(),
            input.child_dnskey_rrsig_rrset.len(),
            input.nsec_rrset.len() + input.nsec3_rrset.len(),
            input.nsec_rrsig_rrset.len() + input.nsec3_rrsig_rrset.len(),
        ));
        Ok(self.child_no_data_valid)
    }

    fn validate_child_name_error(
        &self,
        input: DelegatedChildDnssecNameErrorValidation<'_>,
    ) -> Result<bool, ResolverError> {
        self.child_name_error_validations.lock().unwrap().push((
            input.child_ds_rrset.len(),
            input.child_dnskey_rrset.len(),
            input.child_dnskey_rrsig_rrset.len(),
            input.nsec_rrset.len() + input.nsec3_rrset.len(),
            input.nsec_rrsig_rrset.len() + input.nsec3_rrsig_rrset.len(),
        ));
        Ok(self.child_name_error_valid)
    }
}

fn dns_responses(responses: Vec<(&str, RecordType, Vec<ResourceRecord>)>) -> DnsResponseMap {
    responses
        .into_iter()
        .map(|(name, record_type, answers)| {
            (
                (name.to_owned(), record_type.code()),
                DnsResponseFixture { answers, ..DnsResponseFixture::default() },
            )
        })
        .collect()
}

fn address(ip: [u8; 4]) -> ServerAddress {
    ServerAddress { ip: ip.to_vec(), port: 53 }
}

fn delegation_with_records(records: Vec<ResourceRecord>) -> HnsDelegation {
    HnsDelegation { root_name: "welcome".to_owned(), owner: name("welcome"), records }
}

fn welcome_delegation() -> HnsDelegation {
    delegation_with_records(vec![
        ns_record("welcome", "ns1.welcome"),
        record(name("ns1.welcome"), RecordType::A, vec![127, 0, 0, 1]),
        ds_record("welcome"),
    ])
}

fn welcome_keys() -> (&'static str, RecordType, Vec<ResourceRecord>) {
    ("welcome", RecordType::Dnskey, vec![dnskey_record("welcome"), rrsig_record("welcome")])
}

fn scripted(responses: DnsResponseMap) -> ScriptedDnsTransport {
    ScriptedDnsTransport {
        responses,
        server_responses: Vec::new(),
        requests: Arc::new(Mutex::new(Vec::new())),
        udp_behavior: ScriptedUdpBehavior::Normal,
    }
}

fn proven(root_name: &str, records: Vec<ResourceRecord>, exists: bool) -> ProvenNameRecords {
    ProvenNameRecords {
        root_name: root_name.to_owned(),
        name_hash: name_hash(root_name),
        records,
        secure: true,
        exists,
    }
}

fn resolver_response(
    qname: &str,
    qtype: u16,
    secure: bool,
    records: Vec<ResourceRecord>,
) -> (ResolutionRequest, ResolutionAnswer) {
    (request(qname, qtype), ResolutionAnswer { name: name(qname), records, secure })
}

#[test]
fn single_label_is_hns() {
    assert_eq!(classify_name("welcome"), NameClass::Hns);
}

#[test]
fn trailing_dot_single_label_is_hns() {
    assert_eq!(classify_name("welcome."), NameClass::Hns);
}

#[test]
fn service_prefixed_name_extracts_hns_root() {
    assert_eq!(hns_root_label("_443._tcp.welcome").unwrap(), "welcome");
    assert_eq!(hns_root_label("_443._tcp.welcome.2d").unwrap(), "2d");
}

#[test]
fn dotted_name_is_icann() {
    assert_eq!(classify_name("example.com"), NameClass::Icann);
}

#[test]
fn dotted_hns_name_extracts_final_root_label() {
    assert_eq!(hns_root_label("welcome.2d").unwrap(), "2d");
    assert_eq!(classify_name("welcome.2d"), NameClass::Hns);
}

#[test]
fn whitespace_is_search() {
    assert_eq!(classify_name("two words"), NameClass::Search);
}

#[test]
fn cached_resolver_reuses_fresh_answer() {
    let mut resolver = CachedResolver::new(CountingResolver { count: 0 }, 32, 60_000);
    let request = request("name", 1);

    resolver.resolve(&request).unwrap();
    resolver.resolve(&request).unwrap();

    assert_eq!(resolver.inner.count, 1);
}

#[test]
fn cached_resolver_reuses_name_not_found() {
    let mut resolver = CachedResolver::new(CountingNameNotFoundResolver { count: 0 }, 32, 60_000);
    let request = request("missing", 1);

    assert_eq!(resolver.resolve(&request).unwrap_err(), ResolverError::NameNotFound);
    assert_eq!(resolver.resolve(&request).unwrap_err(), ResolverError::NameNotFound);

    assert_eq!(resolver.inner.count, 1);
}

#[test]
fn cached_resolver_asks_again_after_its_time() {
    let mut resolver = CachedResolver::new(CountingResolver { count: 0 }, 32, 60_000);
    let request = request("name", 1);

    resolver.resolve(&request).unwrap();
    resolver.now_ms = 60_000;
    resolver.resolve(&request).unwrap();

    assert_eq!(resolver.inner.count, 2);
}

#[test]
fn cached_resolver_keeps_no_other_errors() {
    let mut resolver = CachedResolver::new(FailClosedResolver, 32, 60_000);

    assert_eq!(
        resolver.resolve(&request("name", 1)).unwrap_err(),
        ResolverError::UnsupportedBackend,
    );
    assert!(resolver.entries.is_empty());
}

#[test]
fn cached_resolver_holds_no_more_than_it_may() {
    let mut resolver = CachedResolver::new(CountingResolver { count: 0 }, 1, 60_000);

    resolver.resolve(&request("alpha", 1)).unwrap();
    resolver.resolve(&request("beta", 1)).unwrap();

    assert_eq!(resolver.entries.len(), 1);
    assert_eq!(resolver.entries[0].request.qname, "beta");
    assert_eq!(resolver.into_inner().count, 2);
}

#[test]
fn proof_backed_resolver_filters_verified_records() {
    let request_name = name("welcome");
    let mut resolver = ProofBackedResolver::new(StaticProofProvider {
        proven: proven(
            "welcome",
            vec![
                record(request_name.clone(), RecordType::A, vec![127, 0, 0, 1]),
                record(request_name.clone(), RecordType::Aaaa, vec![0; 16]),
                record(name("other"), RecordType::A, vec![1, 1, 1, 1]),
            ],
            true,
        ),
    });

    let answer = resolver.resolve(&request("welcome", RecordType::A.code())).unwrap();

    assert_eq!(answer.name, request_name);
    assert!(answer.secure);
    assert_eq!(
        answer.records,
        vec![record(answer.name, RecordType::A, vec![127, 0, 0, 1])]
    );
}

#[test]
fn proof_backed_resolver_rejects_mismatched_proof_name() {
    let mut resolver = ProofBackedResolver::new(StaticProofProvider {
        proven: proven("other", Vec::new(), true),
    });

    assert_eq!(
        resolver.resolve(&request("welcome", RecordType::A.code())).unwrap_err(),
        ResolverError::ProofNameMismatch,
    );
}

#[test]
fn proof_backed_resolver_reports_verified_non_inclusion() {
    let mut resolver = ProofBackedResolver::new(StaticProofProvider {
        proven: proven("missing", Vec::new(), false),
    });

    assert_eq!(
        resolver.resolve(&request("missing", RecordType::A.code())).unwrap_err(),
        ResolverError::NameNotFound,
    );
}

#[test]
fn proven_records_decode_hsd_resource_value() {
    let root_name = "welcome".to_owned();

    let proven = ProvenNameRecords::from_resource_value(
        root_name.clone(),
        name_hash(&root_name),
        ns_value("welcome", "ns1.welcome"),
    )
    .unwrap();

    assert_eq!(proven.root_name, root_name);
    assert_eq!(proven.name_hash, name_hash("welcome"));
    assert!(proven.secure);
    assert!(proven.exists);
    assert_eq!(proven.records.len(), 1);
    assert_eq!(proven.records[0].name, name("welcome"));
    assert_eq!(proven.records[0].record_type, RecordType::Ns);
    assert_eq!(proven.records[0].ttl, DEFAULT_HANDSHAKE_RESOURCE_TTL);
    assert_eq!(proven.records[0].rdata, name_bytes("ns1.welcome"));
}

#[test]
fn proven_records_reject_invalid_resource_value() {
    assert_eq!(
        ProvenNameRecords::from_resource_value(
            "welcome".to_owned(),
            name_hash("welcome"),
            ResourcePayload { bytes: vec![1], decoded: Err("unsupported version".to_owned()) },
        )
        .unwrap_err(),
        ResolverError::InvalidResource("unsupported version".to_owned()),
    );
}

#[test]
fn resource_value_provider_decodes_verified_inclusion_for_resolver() {
    let mut resolver =
        ProofBackedResolver::new(ResourceValueProofProvider::new(StaticValueProvider {
            verified: VerifiedResourceValue::inclusion(
                "welcome".to_owned(),
                name_hash("welcome"),
                ns_value("welcome", "ns1.welcome"),
            ),
        }));

    let answer = resolver.resolve(&request("welcome", RecordType::Ns.code())).unwrap();

    assert!(answer.secure);
    assert_eq!(answer.records.len(), 1);
    assert_eq!(answer.records[0].record_type, RecordType::Ns);
    assert_eq!(answer.records[0].rdata, name_bytes("ns1.welcome"));
}

#[test]
fn delegating_resolver_answers_root_ns_from_hns_proof() {
    let mut resolver = DelegatingResolver::new(
        StaticProofProvider {
            proven: proven("welcome", vec![ns_record("welcome", "ns1.welcome")], true),
        },
        FailClosedResolver,
    );

    let answer = resolver.resolve(&request("welcome", RecordType::Ns.code())).unwrap();

    assert_eq!(answer.name, name("welcome"));
    assert!(answer.secure);
    assert_eq!(answer.records, vec![ns_record("welcome", "ns1.welcome")]);
}

#[test]
fn delegating_resolver_delegates_apex_address_with_ds() {
    let requests = Arc::new(Mutex::new(Vec::new()));
    let mut resolver = DelegatingResolver::new(
        StaticProofProvider {
            proven: proven(
                "welcome",
                vec![ns_record("welcome", "ns1.welcome"), ds_record("welcome")],
                true,
            ),
        },
        ScriptedResolver {
            responses: vec![resolver_response(
                "welcome",
                RecordType::A.code(),
                true,
                vec![record(name("welcome"), RecordType::A, vec![127, 0, 0, 1])],
            )],
            requests: Arc::clone(&requests),
        },
    );

    let answer = resolver.resolve(&request("welcome", RecordType::A.code())).unwrap();

    assert!(answer.secure);
    assert_eq!(answer.records.len(), 1);
    assert_eq!(answer.records[0].record_type, RecordType::A);
    assert_eq!(*requests.lock().unwrap(), vec![request("welcome", RecordType::A.code())]);
}

#[test]
fn delegating_resolver_fails_closed_when_ds_child_is_insecure() {
    let mut resolver = DelegatingResolver::new(
        StaticProofProvider {
            proven: proven(
                "welcome",
                vec![ns_record("welcome", "ns1.welcome"), ds_record("welcome")],
                true,
            ),
        },
        ScriptedResolver {
            responses: vec![resolver_response("welcome", RecordType::A.code(), false, Vec::new())],
            requests: Arc::new(Mutex::new(Vec::new())),
        },
    );

    assert_eq!(
        resolver.resolve(&request("welcome", RecordType::A.code())).unwrap_err(),
        ResolverError::DnssecFailed,
    );
}

#[test]
fn delegating_resolver_marks_unsigned_delegation_insecure() {
    let mut resolver = DelegatingResolver::new(
        StaticProofProvider {
            proven: proven("welcome", vec![ns_record("welcome", "ns1.welcome")], true),
        },
        ScriptedResolver {
            responses: vec![resolver_response(
                "welcome",
                RecordType::A.code(),
                true,
                vec![record(name("welcome"), RecordType::A, vec![127, 0, 0, 1])],
            )],
            requests: Arc::new(Mutex::new(Vec::new())),
        },
    );

    let answer = resolver.resolve(&request("welcome", RecordType::A.code())).unwrap();

    assert!(!answer.secure);
    assert_eq!(answer.records.len(), 1);
}

#[test]
fn delegating_resolver_passes_hns_delegation_context() {
    let delegations = Arc::new(Mutex::new(Vec::new()));
    let mut resolver = DelegatingResolver::new(
        StaticProofProvider {
            proven: proven(
                "welcome",
                vec![
                    ns_record("welcome", "ns1.welcome"),
                    record(name("ns1.welcome"), RecordType::A, vec![127, 0, 0, 1]),
                    ds_record("welcome"),
                ],
                true,
            ),
        },
        CapturingDelegatedResolver { delegations: Arc::clone(&delegations) },
    );

    let answer = resolver.resolve(&request("welcome", RecordType::A.code())).unwrap();

    assert!(answer.secure);
    let captured = delegations.lock().unwrap();
    assert_eq!(captured.len(), 1);
    assert_eq!(captured[0].root_name, "welcome");
    assert_eq!(captured[0].owner, name("welcome"));
    assert_eq!(captured[0].records.len(), 3);
}

#[test]
fn delegating_resolver_hydrates_out_of_zone_hns_nameserver_address() {
    let ns_name = name("ns1.hshub");
    let delegations = Arc::new(Mutex::new(Vec::new()));
    let mut known = HashMap::new();
    known.insert(
        "welcome".to_owned(),
        proven(
            "welcome",
            vec![ns_record("welcome", "ns1.hshub"), ds_record("welcome")],
            true,
        ),
    );
    known.insert(
        "hshub".to_owned(),
        proven(
            "hshub",
            vec![
                ns_record("hshub", "ns1.hshub"),
                record(ns_name.clone(), RecordType::A, vec![127, 0, 0, 9]),
            ],
            true,
        ),
    );
    let mut resolver = DelegatingResolver::new(
        MapProofProvider { proven: known },
        CapturingDelegatedResolver { delegations: Arc::clone(&delegations) },
    );

    let answer = resolver.resolve(&request("welcome", RecordType::A.code())).unwrap();

    assert!(answer.secure);
    let captured = delegations.lock().unwrap();
    assert_eq!(captured.len(), 1);
    assert!(captured[0]
        .records
        .contains(&record(ns_name, RecordType::A, vec![127, 0, 0, 9])));
}

#[test]
fn authoritative_dnssec_resolver_validates_positive_rrset() {
    let server = address([127, 0, 0, 1]);
    let transport = scripted(dns_responses(vec![
        (
            "welcome",
            RecordType::A,
            vec![
                record(name("welcome"), RecordType::A, vec![127, 0, 0, 1]),
                rrsig_record("welcome"),
            ],
        ),
        welcome_keys(),
    ]));
    let requests = Arc::clone(&transport.requests);
    let verifier = StaticDnssecVerifier { positive_valid: true, ..StaticDnssecVerifier::default() };
    let validations = Arc::clone(&verifier.validations);
    let mut resolver = AuthoritativeDnssecResolver::new(transport, verifier);

    let answer = resolver
        .resolve_delegated(&request("welcome", RecordType::A.code()), &welcome_delegation())
        .unwrap();

    assert!(answer.secure);
    assert_eq!(answer.records.len(), 1);
    assert_eq!(answer.records[0].rdata, vec![127, 0, 0, 1]);
    assert_eq!(
        *requests.lock().unwrap(),
        vec![
            (server.clone(), "welcome".to_owned(), RecordType::A.code(), false),
            (server, "welcome".to_owned(), RecordType::Dnskey.code(), false),
        ],
    );
    assert_eq!(*validations.lock().unwrap(), vec![(1, 1, 1, 1, 1)]);
}

#[test]
fn authoritative_dnssec_resolver_accepts_secure_nsec_no_data() {
    let transport = scripted(dns_responses(vec![
        (
            "welcome",
            RecordType::Aaaa,
            vec![nsec_record("welcome"), rrsig_record("welcome")],
        ),
        welcome_keys(),
    ]));
    let verifier = StaticDnssecVerifier { no_data_valid: true, ..StaticDnssecVerifier::default() };
    let validations = Arc::clone(&verifier.validations);
    let no_data_validations = Arc::clone(&verifier.no_data_validations);
    let mut resolver = AuthoritativeDnssecResolver::new(transport, verifier);

    let answer = resolver
        .resolve_delegated(&request("welcome", RecordType::Aaaa.code()), &welcome_delegation())
        .unwrap();

    assert!(answer.secure);
    assert!(answer.records.is_empty());
    assert!(validations.lock().unwrap().is_empty());
    assert_eq!(*no_data_validations.lock().unwrap(), vec![(1, 1, 1, 1, 2)]);
}

#[test]
fn authoritative_dnssec_resolver_accepts_secure_nsec_name_error() {
    let mut responses = dns_responses(vec![welcome_keys()]);
    responses.insert(
        ("missing.welcome".to_owned(), RecordType::A.code()),
        DnsResponseFixture {
            rcode: DNS_RCODE_NXDOMAIN,
            authorities: vec![
                nsec_record("alpha.welcome"),
                nsec_record("z.welcome"),
                rrsig_record("welcome"),
            ],
            ..DnsResponseFixture::default()
        },
    );
    let verifier =
        StaticDnssecVerifier { name_error_valid: true, ..StaticDnssecVerifier::default() };
    let validations = Arc::clone(&verifier.validations);
    let no_data_validations = Arc::clone(&verifier.no_data_validations);
    let name_error_validations = Arc::clone(&verifier.name_error_validations);
    let mut resolver = AuthoritativeDnssecResolver::new(scripted(responses), verifier);

    let answer = resolver
        .resolve_delegated(
            &request("missing.welcome", RecordType::A.code()),
            &welcome_delegation(),
        )
        .unwrap();

    assert!(answer.secure);
    assert!(answer.records.is_empty());
    assert!(validations.lock().unwrap().is_empty());
    assert!(no_data_validations.lock().unwrap().is_empty());
    assert_eq!(*name_error_validations.lock().unwrap(), vec![(1, 1, 1, 2, 2)]);
}

#[test]
fn authoritative_dnssec_resolver_follows_secure_cname_chain() {
    let transport = scripted(dns_responses(vec![
        (
            "welcome",
            RecordType::A,
            vec![
                cname_record("welcome", "edge.welcome"),
                rrsig_record("welcome"),
                record(name("edge.welcome"), RecordType::A, vec![127, 0, 0, 1]),
                rrsig_record("edge.welcome"),
            ],
        ),
        welcome_keys(),
    ]));
    let verifier = StaticDnssecVerifier { positive_valid: true, ..StaticDnssecVerifier::default() };
    let validations = Arc::clone(&verifier.validations);
    let mut resolver = AuthoritativeDnssecResolver::new(transport, verifier);

    let answer = resolver
        .resolve_delegated(&request("welcome", RecordType::A.code()), &welcome_delegation())
        .unwrap();

    assert!(answer.secure);
    assert_eq!(answer.name, name("welcome"));
    assert_eq!(answer.records.len(), 2);
    assert_eq!(answer.records[0].record_type, RecordType::Cname);
    assert_eq!(answer.records[1].name, name("edge.welcome"));
    assert_eq!(answer.records[1].record_type, RecordType::A);
    assert_eq!(*validations.lock().unwrap(), vec![(1, 1, 1, 1, 1), (1, 1, 1, 1, 1)]);
}

/// A transport on which `qname` is referred to a server for `sub.welcome`, which
/// answers as the fixture says.
fn referring_transport(qname: &str, answer: DnsResponseFixture) -> ScriptedDnsTransport {
    let child_server = address([127, 0, 0, 2]);
    let mut responses = dns_responses(vec![welcome_keys()]);
    responses.insert(
        (qname.to_owned(), RecordType::A.code()),
        DnsResponseFixture {
            rcode: DNS_RCODE_NOERROR,
            answers: Vec::new(),
            authorities: vec![
                ns_record("sub.welcome", "ns1.sub.welcome"),
                ds_record("sub.welcome"),
                rrsig_record("sub.welcome"),
            ],
            additionals: vec![record(
                name("ns1.sub.welcome"),
                RecordType::A,
                vec![127, 0, 0, 2],
            )],
        },
    );
    let mut transport = scripted(responses);
    transport.server_responses.push((
        child_server.clone(),
        "sub.welcome".to_owned(),
        RecordType::Dnskey.code(),
        DnsResponseFixture {
            answers: vec![dnskey_record("sub.welcome"), rrsig_record("sub.welcome")],
            ..DnsResponseFixture::default()
        },
    ));
    transport.server_responses.push((
        child_server,
        qname.to_owned(),
        RecordType::A.code(),
        answer,
    ));
    transport
}

fn referred_requests(qname: &str) -> Vec<(ServerAddress, String, u16, bool)> {
    let parent_server = address([127, 0, 0, 1]);
    let child_server = address([127, 0, 0, 2]);
    vec![
        (parent_server.clone(), qname.to_owned(), RecordType::A.code(), false),
        (parent_server, "welcome".to_owned(), RecordType::Dnskey.code(), false),
        (child_server.clone(), "sub.welcome".to_owned(), RecordType::Dnskey.code(), false),
        (child_server, qname.to_owned(), RecordType::A.code(), false),
    ]
}

#[test]
fn authoritative_dnssec_resolver_follows_secure_child_referral() {
    let transport = referring_transport(
        "www.sub.welcome",
        DnsResponseFixture {
            answers: vec![
                record(name("www.sub.welcome"), RecordType::A, vec![127, 0, 0, 3]),
                rrsig_record("www.sub.welcome"),
            ],
            ..DnsResponseFixture::default()
        },
    );
    let requests = Arc::clone(&transport.requests);
    let verifier =
        StaticDnssecVerifier { child_positive_valid: true, ..StaticDnssecVerifier::default() };
    let child_validations = Arc::clone(&verifier.child_validations);
    let mut resolver = AuthoritativeDnssecResolver::new(transport, verifier);

    let answer = resolver
        .resolve_delegated(
            &request("www.sub.welcome", RecordType::A.code()),
            &welcome_delegation(),
        )
        .unwrap();

    assert!(answer.secure);
    assert_eq!(answer.records.len(), 1);
    assert_eq!(answer.records[0].rdata, vec![127, 0, 0, 3]);
    assert_eq!(*requests.lock().unwrap(), referred_requests("www.sub.welcome"));
    assert_eq!(*child_validations.lock().unwrap(), vec![(1, 1, 1, 1, 1)]);
}

#[test]
fn authoritative_dnssec_resolver_follows_secure_child_cname_chain() {
    let transport = referring_transport(
        "www.sub.welcome",
        DnsResponseFixture {
            answers: vec![
                cname_record("www.sub.welcome", "edge.sub.welcome"),
                rrsig_record("www.sub.welcome"),
                record(name("edge.sub.welcome"), RecordType::A, vec![127, 0, 0, 4]),
                rrsig_record("edge.sub.welcome"),
            ],
            ..DnsResponseFixture::default()
        },
    );
    let requests = Arc::clone(&transport.requests);
    let verifier =
        StaticDnssecVerifier { child_positive_valid: true, ..StaticDnssecVerifier::default() };
    let child_validations = Arc::clone(&verifier.child_validations);
    let mut resolver = AuthoritativeDnssecResolver::new(transport, verifier);

    let answer = resolver
        .resolve_delegated(
            &request("www.sub.welcome", RecordType::A.code()),
            &welcome_delegation(),
        )
        .unwrap();

    assert!(answer.secure);
    assert_eq!(answer.records.len(), 2);
    assert_eq!(answer.records[0].record_type, RecordType::Cname);
    assert_eq!(answer.records[1].rdata, vec![127, 0, 0, 4]);
    assert_eq!(*requests.lock().unwrap(), referred_requests("www.sub.welcome"));
    assert_eq!(*child_validations.lock().unwrap(), vec![(1, 1, 1, 1, 1), (1, 1, 1, 1, 1)]);
}

#[test]
fn authoritative_dnssec_resolver_accepts_secure_child_nsec_no_data() {
    let transport = referring_transport(
        "missing.sub.welcome",
        DnsResponseFixture {
            authorities: vec![
                nsec_record("missing.sub.welcome"),
                rrsig_record("missing.sub.welcome"),
            ],
            ..DnsResponseFixture::default()
        },
    );
    let requests = Arc::clone(&transport.requests);
    let verifier =
        StaticDnssecVerifier { child_no_data_valid: true, ..StaticDnssecVerifier::default() };
    let child_no_data_validations = Arc::clone(&verifier.child_no_data_validations);
    let mut resolver = AuthoritativeDnssecResolver::new(transport, verifier);

    let answer = resolver
        .resolve_delegated(
            &request("missing.sub.welcome", RecordType::A.code()),
            &welcome_delegation(),
        )
        .unwrap();

    assert!(answer.secure);
    assert!(answer.records.is_empty());
    assert_eq!(*requests.lock().unwrap(), referred_requests("missing.sub.welcome"));
    assert_eq!(*child_no_data_validations.lock().unwrap(), vec![(1, 1, 1, 1, 2)]);
}

#[test]
fn missing_keys_are_refused_for_a_zone_and_left_to_the_verifier_for_a_child() {
    let zone = || ZoneKeys {
        owner: name("welcome"),
        ds_rrset: vec![ds_record("welcome")],
        dnskey_rrset: Vec::new(),
        dnskey_rrsig_rrset: Vec::new(),
    };
    let child = ChildKeys {
        owner: name("sub.welcome"),
        ds_rrset: vec![ds_record("sub.welcome")],
        ds_rrsig_rrset: Vec::new(),
        dnskey_rrset: Vec::new(),
        dnskey_rrsig_rrset: Vec::new(),
    };
    let response = DnsMessage {
        id: 1,
        flags: 0x8400,
        questions: Vec::new(),
        answers: Vec::new(),
        authorities: vec![nsec_record("missing.sub.welcome")],
        additionals: Vec::new(),
    };
    let asked = name("missing.sub.welcome");
    let verifier = StaticDnssecVerifier {
        no_data_valid: true,
        child_no_data_valid: true,
        ..StaticDnssecVerifier::default()
    };

    let alone = Trust { zone: zone(), link: None };
    assert_eq!(
        resolve_secure_no_data(&verifier, &alone, &asked, RecordType::A, &response, Vec::new()),
        Err(ResolverError::DnssecFailed),
    );
    assert!(verifier.no_data_validations.lock().unwrap().is_empty());

    let linked = Trust { zone: zone(), link: Some(child) };
    let answer =
        resolve_secure_no_data(&verifier, &linked, &asked, RecordType::A, &response, Vec::new())
            .unwrap();
    assert!(answer.secure && answer.records.is_empty());
    assert_eq!(*verifier.child_no_data_validations.lock().unwrap(), vec![(1, 0, 0, 1, 0)]);
    let refusing = StaticDnssecVerifier::default();
    assert_eq!(
        resolve_secure_no_data(&refusing, &linked, &asked, RecordType::A, &response, Vec::new()),
        Err(ResolverError::DnssecFailed),
    );
}

#[test]
fn authoritative_dnssec_resolver_accepts_secure_child_name_error() {
    let transport = referring_transport(
        "missing.sub.welcome",
        DnsResponseFixture {
            rcode: DNS_RCODE_NXDOMAIN,
            authorities: vec![
                nsec_record("alpha.sub.welcome"),
                nsec_record("z.sub.welcome"),
                rrsig_record("sub.welcome"),
            ],
            ..DnsResponseFixture::default()
        },
    );
    let verifier =
        StaticDnssecVerifier { child_name_error_valid: true, ..StaticDnssecVerifier::default() };
    let child_name_error_validations = Arc::clone(&verifier.child_name_error_validations);
    let mut resolver = AuthoritativeDnssecResolver::new(transport, verifier);

    let answer = resolver
        .resolve_delegated(
            &request("missing.sub.welcome", RecordType::A.code()),
            &welcome_delegation(),
        )
        .unwrap();

    assert!(answer.secure);
    assert!(answer.records.is_empty());
    assert_eq!(*child_name_error_validations.lock().unwrap(), vec![(1, 1, 1, 2, 2)]);
}

#[test]
fn authoritative_dnssec_resolver_fails_closed_when_verifier_rejects() {
    let transport = scripted(dns_responses(vec![
        (
            "welcome",
            RecordType::A,
            vec![
                record(name("welcome"), RecordType::A, vec![127, 0, 0, 1]),
                rrsig_record("welcome"),
            ],
        ),
        welcome_keys(),
    ]));
    let mut resolver =
        AuthoritativeDnssecResolver::new(transport, StaticDnssecVerifier::default());

    assert_eq!(
        resolver
            .resolve_delegated(&request("welcome", RecordType::A.code()), &welcome_delegation())
            .unwrap_err(),
        ResolverError::DnssecFailed,
    );
}

#[test]
fn authoritative_dnssec_resolver_needs_a_nameserver_address() {
    let mut resolver = AuthoritativeDnssecResolver::new(
        scripted(HashMap::new()),
        StaticDnssecVerifier::default(),
    );

    assert_eq!(
        resolver
            .resolve_delegated(
                &request("welcome", RecordType::A.code()),
                &delegation_with_records(vec![
                    ns_record("welcome", "ns1.welcome"),
                    ds_record("welcome"),
                ]),
            )
            .unwrap_err(),
        ResolverError::NoNameserverAddress,
    );
}

#[test]
fn resolver_goes_on_from_given_query_ids() {
    let mut ids = QueryIds::for_dns();
    let first = next_dns_query_id(&mut ids);
    let resolver = AuthoritativeDnssecResolver::with_ids(
        scripted(HashMap::new()),
        StaticDnssecVerifier::default(),
        ids,
    );
    assert_eq!(resolver.wire.ids.last, first);

    let (mut resolver, requests) = authoritative_dnssec_retry_resolver(ScriptedUdpBehavior::Normal);
    resolver.wire.ids = QueryIds { last: u16::MAX };
    resolver
        .resolve_delegated(&request("welcome", RecordType::A.code()), &welcome_delegation())
        .unwrap();
    let asked = requests.lock().unwrap().len();
    assert!(asked > 0);
    assert_eq!(usize::from(resolver.wire.ids.last), asked - 1);
}

fn authoritative_dnssec_retry_resolver(
    udp_behavior: ScriptedUdpBehavior,
) -> (AuthoritativeDnssecResolver<ScriptedDnsTransport, StaticDnssecVerifier>, DnsRequestLog) {
    let mut transport = scripted(dns_responses(vec![
        (
            "welcome",
            RecordType::A,
            vec![
                record(name("welcome"), RecordType::A, vec![127, 0, 0, 1]),
                rrsig_record("welcome"),
            ],
        ),
        welcome_keys(),
    ]));
    transport.udp_behavior = udp_behavior;
    let requests = Arc::clone(&transport.requests);
    let verifier = StaticDnssecVerifier { positive_valid: true, ..StaticDnssecVerifier::default() };
    (AuthoritativeDnssecResolver::new(transport, verifier), requests)
}

fn assert_welcome_a_retried_over_tcp(requests: &DnsRequestLog) {
    let requests = requests.lock().unwrap();
    assert!(requests.iter().any(|(_, qname, qtype, tcp)| {
        qname == "welcome" && *qtype == RecordType::A.code() && !*tcp
    }));
    assert!(requests.iter().any(|(_, qname, qtype, tcp)| {
        qname == "welcome" && *qtype == RecordType::A.code() && *tcp
    }));
}

#[test]
fn authoritative_dnssec_resolver_retries_truncated_udp_over_tcp() {
    let (mut resolver, requests) =
        authoritative_dnssec_retry_resolver(ScriptedUdpBehavior::Truncated);
    let answer = resolver
        .resolve_delegated(&request("welcome", RecordType::A.code()), &welcome_delegation())
        .unwrap();

    assert!(answer.secure);
    assert_welcome_a_retried_over_tcp(&requests);
}

#[test]
fn authoritative_dnssec_resolver_retries_udp_transport_error_over_tcp() {
    let (mut resolver, requests) =
        authoritative_dnssec_retry_resolver(ScriptedUdpBehavior::TransportError);
    let answer = resolver
        .resolve_delegated(&request("welcome", RecordType::A.code()), &welcome_delegation())
        .unwrap();

    assert!(answer.secure);
    assert_welcome_a_retried_over_tcp(&requests);
}

#[test]
fn authoritative_dnssec_resolver_retries_invalid_udp_response_over_tcp() {
    let (mut resolver, requests) =
        authoritative_dnssec_retry_resolver(ScriptedUdpBehavior::InvalidResponse);
    let answer = resolver
        .resolve_delegated(&request("welcome", RecordType::A.code()), &welcome_delegation())
        .unwrap();

    assert!(answer.secure);
    assert_welcome_a_retried_over_tcp(&requests);
}

#[test]
fn resolver_all_record_query_keeps_synth_address_records() {
    let value = payload(
        vec![0, 4, 127, 0, 0, 1],
        vec![
            targeted("welcome", RecordType::Ns, "_fs0000g._synth"),
            record(name("_fs0000g._synth"), RecordType::A, vec![127, 0, 0, 1]),
        ],
    );
    let mut resolver =
        ProofBackedResolver::new(ResourceValueProofProvider::new(StaticValueProvider {
            verified: VerifiedResourceValue::inclusion(
                "welcome".to_owned(),
                name_hash("welcome"),
                value,
            ),
        }));

    let answer = resolver.resolve(&request("welcome", u16::MAX)).unwrap();

    assert_eq!(answer.records.len(), 2);
    assert!(answer
        .records
        .iter()
        .any(|record| record.record_type == RecordType::A && record.rdata == [127, 0, 0, 1]));
}

#[test]
fn resource_value_provider_allows_verified_non_inclusion() {
    let mut provider = ResourceValueProofProvider::new(StaticValueProvider {
        verified: VerifiedResourceValue::non_inclusion(
            "welcome".to_owned(),
            name_hash("welcome"),
        ),
    });

    let proven = provider.prove_name("welcome", name_hash("welcome")).unwrap();

    assert!(proven.secure);
    assert!(!proven.exists);
    assert!(proven.records.is_empty());
}

#[test]
fn resource_value_provider_rejects_mismatched_verified_value() {
    let mut provider = ResourceValueProofProvider::new(StaticValueProvider {
        verified: VerifiedResourceValue::non_inclusion("other".to_owned(), name_hash("other")),
    });

    assert_eq!(
        provider.prove_name("welcome", name_hash("welcome")).unwrap_err(),
        ResolverError::ProofNameMismatch,
    );
}

#[test]
fn memory_resource_value_provider_serves_inserted_value() {
    let mut values = MemoryResourceValueProvider::new();
    values
        .insert(VerifiedResourceValue::inclusion(
            "welcome".to_owned(),
            name_hash("welcome"),
            ns_value("welcome", "ns1.welcome"),
        ))
        .unwrap();
    let mut resolver = ProofBackedResolver::new(ResourceValueProofProvider::new(values));

    let answer = resolver.resolve(&request("welcome", RecordType::Ns.code())).unwrap();

    assert_eq!(answer.records.len(), 1);
    assert_eq!(answer.records[0].rdata, name_bytes("ns1.welcome"));
}

#[test]
fn memory_resource_value_provider_rejects_missing_value() {
    let mut values = MemoryResourceValueProvider::new();

    assert_eq!(
        values.prove_resource_value("welcome", name_hash("welcome")).unwrap_err(),
        ResolverError::ProofUnavailable,
    );
    assert!(values.is_empty());
}

#[test]
fn memory_resource_value_provider_rejects_mismatched_hash() {
    let mut values = MemoryResourceValueProvider::new();

    assert_eq!(
        values
            .insert(VerifiedResourceValue::non_inclusion(
                "welcome".to_owned(),
                name_hash("other"),
            ))
            .unwrap_err(),
        ResolverError::ProofNameMismatch,
    );
}

fn stored_rows(values: SqliteResourceValueProvider) -> Vec<ResourceValueRow> {
    values.rows
}

#[test]
fn sqlite_resource_value_provider_persists_inserted_value() {
    let value = ns_value("welcome", "ns1.welcome");
    let mut values = SqliteResourceValueProvider::from_rows(Vec::new());
    values
        .insert(
            VerifiedResourceValue::inclusion(
                "welcome".to_owned(),
                name_hash("welcome"),
                value.copy(),
            ),
            1_000,
        )
        .unwrap();
    assert_eq!(values.len(), 1);

    let mut values = SqliteResourceValueProvider::from_rows(stored_rows(values));
    let verified = values.prove_resource_value("welcome", name_hash("welcome")).unwrap();
    assert_eq!(verified.value, Some(value));

    let mut resolver = ProofBackedResolver::new(ResourceValueProofProvider::new(values));
    let answer = resolver.resolve(&request("welcome", RecordType::Ns.code())).unwrap();

    assert_eq!(answer.records.len(), 1);
    assert_eq!(answer.records[0].rdata, name_bytes("ns1.welcome"));
}

#[test]
fn sqlite_resource_value_provider_persists_non_inclusion() {
    let mut values = SqliteResourceValueProvider::from_rows(Vec::new());
    values
        .insert(
            VerifiedResourceValue::non_inclusion("welcome".to_owned(), name_hash("welcome")),
            1_000,
        )
        .unwrap();

    let mut values = SqliteResourceValueProvider::from_rows(stored_rows(values));
    let verified = values.prove_resource_value("welcome", name_hash("welcome")).unwrap();
    assert_eq!(verified.value, None);
    assert!(verified.secure);
}

#[test]
fn sqlite_resource_value_provider_reports_bytes_and_evicts_oldest_values() {
    let mut values = SqliteResourceValueProvider::from_rows(Vec::new());
    let alpha_hash = name_hash("alpha");
    let beta_hash = name_hash("beta");

    values
        .insert(
            VerifiedResourceValue::inclusion(
                "alpha".to_owned(),
                alpha_hash,
                opaque_value(vec![1, 2, 3, 4, 5, 6]),
            ),
            1_000,
        )
        .unwrap();
    values
        .insert(
            VerifiedResourceValue::inclusion(
                "beta".to_owned(),
                beta_hash,
                opaque_value(vec![7, 8]),
            ),
            1_000,
        )
        .unwrap();

    assert_eq!(
        values.stats().unwrap(),
        ResourceValueCacheStats { entries: 2, value_bytes: 8 },
    );
    assert_eq!(values.enforce_value_byte_limit(2).unwrap(), 1);

    assert_eq!(
        values.stats().unwrap(),
        ResourceValueCacheStats { entries: 1, value_bytes: 2 },
    );
    assert_eq!(
        values.prove_resource_value("alpha", alpha_hash).unwrap_err(),
        ResolverError::ProofUnavailable,
    );
    assert_eq!(
        values.prove_resource_value("beta", beta_hash).unwrap().value.unwrap().bytes,
        vec![7, 8],
    );

    values.clear();
    assert_eq!(
        values.stats().unwrap(),
        ResourceValueCacheStats { entries: 0, value_bytes: 0 },
    );
}

#[test]
fn sqlite_resource_value_provider_persists_and_prunes_anchors() {
    let mut values = SqliteResourceValueProvider::from_rows(Vec::new());
    let valid_anchor = ResourceValueAnchor { tree_root: Hash256::new([1; 32]), height: 3 };
    let invalid_anchor = ResourceValueAnchor { tree_root: Hash256::new([2; 32]), height: 3 };

    values
        .insert(
            VerifiedResourceValue::inclusion(
                "alpha".to_owned(),
                name_hash("alpha"),
                opaque_value(vec![1]),
            )
            .with_anchor(valid_anchor.tree_root, valid_anchor.height),
            1_000,
        )
        .unwrap();
    values
        .insert(
            VerifiedResourceValue::inclusion(
                "beta".to_owned(),
                name_hash("beta"),
                opaque_value(vec![2]),
            )
            .with_anchor(invalid_anchor.tree_root, invalid_anchor.height),
            1_000,
        )
        .unwrap();
    values
        .insert(
            VerifiedResourceValue::inclusion(
                "gamma".to_owned(),
                name_hash("gamma"),
                opaque_value(vec![3]),
            ),
            1_000,
        )
        .unwrap();

    assert_eq!(values.anchored_heights(), vec![3]);
    assert_eq!(values.prune_invalid_anchors(&vec![valid_anchor], true), 2);
    assert_eq!(
        values.prove_resource_value("alpha", name_hash("alpha")).unwrap().anchor,
        Some(valid_anchor),
    );
    assert_eq!(
        values.prove_resource_value("beta", name_hash("beta")).unwrap_err(),
        ResolverError::ProofUnavailable,
    );
    assert_eq!(
        values.prove_resource_value("gamma", name_hash("gamma")).unwrap_err(),
        ResolverError::ProofUnavailable,
    );
}

#[test]
fn sqlite_resource_value_provider_migrates_legacy_anchor_columns() {
    assert_eq!(sqlite_anchor(None, None), Ok(None));
    let mut values = SqliteResourceValueProvider::from_rows(Vec::new());
    let anchor = ResourceValueAnchor { tree_root: Hash256::new([3; 32]), height: 11 };

    values
        .insert(
            VerifiedResourceValue::inclusion(
                "alpha".to_owned(),
                name_hash("alpha"),
                opaque_value(vec![1, 2]),
            )
            .with_anchor(anchor.tree_root, anchor.height),
            1_000,
        )
        .unwrap();

    let stored = values.prove_resource_value("alpha", name_hash("alpha")).unwrap();
    assert_eq!(stored.anchor, Some(anchor));
    assert_eq!(sqlite_anchor(Some(vec![3; 32]), Some(11)), Ok(Some(anchor)));
}

#[test]
fn anchors_of_rows_are_whole_or_refused() {
    assert_eq!(sqlite_anchor(Some(vec![3; 31]), Some(11)), Err(()));
    assert_eq!(sqlite_anchor(Some(vec![3; 32]), Some(-1)), Err(()));
    assert_eq!(sqlite_anchor(Some(vec![3; 32]), Some(1 << 32)), Err(()));
    assert_eq!(
        sqlite_anchor(Some(vec![3; 32]), Some(u32::MAX as i64)).unwrap().unwrap().height,
        u32::MAX,
    );
}

#[test]
fn later_value_replaces_earlier_one() {
    let mut values = SqliteResourceValueProvider::from_rows(Vec::new());
    for (bytes, now) in [(vec![1], 1_000), (vec![2, 2], 2_000)] {
        values
            .insert(
                VerifiedResourceValue::inclusion(
                    "alpha".to_owned(),
                    name_hash("alpha"),
                    opaque_value(bytes),
                ),
                now,
            )
            .unwrap();
    }
    assert_eq!(values.len(), 1);
    assert!(!values.is_empty());
    assert_eq!(values.total_value_bytes().unwrap(), 2);
    assert_eq!(values.rows[0].updated_at, 2_000);
}

#[test]
fn name_hash_is_sha3() {
    let hash = NameHash::from_name("handshake").unwrap().as_hash();
    assert_eq!(hash.bytes.len(), 32);
    assert_ne!(hash, NameHash::from_name("welcome").unwrap().as_hash());
    assert_eq!(
        NameHash::from_name("a").unwrap().as_hash().bytes[..8],
        [0x80, 0x08, 0x4b, 0xf2, 0xfb, 0xa0, 0x24, 0x75],
    );
}

#[test]
fn bad_names_have_no_hash() {
    assert_eq!(NameHash::from_name("").unwrap_err(), NameHashError::Empty);
    assert_eq!(NameHash::from_name(&"a".repeat(64)).unwrap_err(), NameHashError::TooLong);
    assert_eq!(NameHash::from_name("a.b").unwrap_err(), NameHashError::InvalidCharacter);
    assert_eq!(hns_root_label("").unwrap_err(), ResolverError::UnsupportedBackend);
}

#[test]
fn addresses_with_schemes_are_classified_by_host() {
    assert_eq!(classify_name("https://welcome/path?query"), NameClass::Hns);
    assert_eq!(classify_name("http://example.org/"), NameClass::Icann);
    assert_eq!(classify_name(""), NameClass::Search);
    assert_eq!(classify_name("https:///path"), NameClass::Search);
    assert_eq!(classify_name("bad_.label"), NameClass::Hns);
    assert_eq!(classify_name("label.bad_"), NameClass::Icann);
}

#[test]
fn errors_speak_for_themselves() {
    assert_eq!(
        ResolverError::DnsTransport("closed".to_owned()).message(),
        "DNS transport failed: closed",
    );
    assert_eq!(FailClosedResolver.resolve(&request("a", 1)), Err(ResolverError::UnsupportedBackend));
}

/// The outcome for a name behind `aliases` aliases, the last of which points to
/// `end`.
fn behind_aliases(aliases: usize, end: &str) -> Result<ResolutionAnswer, ResolverError> {
    let mut answers = Vec::new();
    let mut owner = "welcome".to_owned();
    for i in 0..aliases {
        let next =
            if i + 1 == aliases { end.to_owned() } else { format!("a{i}.welcome") };
        answers.push(cname_record(&owner, &next));
        answers.push(rrsig_record(&owner));
        owner = next;
    }
    answers.push(record(name(&owner), RecordType::A, vec![127, 0, 0, 1]));
    answers.push(rrsig_record(&owner));
    let transport = scripted(dns_responses(vec![
        ("welcome", RecordType::A, answers),
        welcome_keys(),
    ]));
    let verifier = StaticDnssecVerifier { positive_valid: true, ..StaticDnssecVerifier::default() };
    AuthoritativeDnssecResolver::new(transport, verifier)
        .resolve_delegated(&request("welcome", RecordType::A.code()), &welcome_delegation())
}

#[test]
fn alias_chains_are_bounded() {
    let answer = behind_aliases(8, "end.welcome").unwrap();
    assert!(answer.secure);
    assert_eq!(answer.records.len(), 9);
    assert_eq!(behind_aliases(9, "end.welcome"), Err(ResolverError::DnssecFailed));
}

#[test]
fn aliases_out_of_the_zone_are_refused() {
    assert_eq!(behind_aliases(1, "end.elsewhere"), Err(ResolverError::DnssecFailed));
}

#[test]
fn values_are_filed_under_the_hash_that_is_expected() {
    let expected = NameHash::new(Hash256::new([1; 32]));
    let other = NameHash::new(Hash256::new([2; 32]));
    let value = || VerifiedResourceValue::non_inclusion("Welcome".to_owned(), expected);
    let filed = file_under(value(), "welcome".to_owned(), expected).unwrap();
    assert_eq!(filed.root_name, "welcome");
    assert_eq!(
        file_under(value(), "welcome".to_owned(), other).map(|value| value.root_name),
        Err(ResolverError::ProofNameMismatch),
    );
    let rows = vec![ResourceValueRow { value: filed, updated_at: 1 }];
    assert_eq!(
        look_up(&rows, "welcome", expected, expected).map(|value| value.root_name),
        Ok("welcome".to_owned()),
    );
    assert_eq!(
        look_up(&rows, "welcome", other, expected).map(|value| value.root_name),
        Err(ResolverError::ProofNameMismatch),
    );
    assert_eq!(
        look_up(&rows, "other", expected, expected).map(|value| value.root_name),
        Err(ResolverError::ProofUnavailable),
    );
}

#[test]
fn proofs_are_held_against_root_and_hash() {
    let hash = NameHash::new(Hash256::new([3; 32]));
    let evidence = |secure, exists| {
        Ok(ProvenNameRecords {
            root_name: "welcome".to_owned(),
            name_hash: hash,
            records: vec![record(name("welcome"), RecordType::A, vec![127, 0, 0, 1])],
            secure,
            exists,
        })
    };
    let ask = |root: &str, hash, evidence| {
        answer_from_proof(name("welcome"), RecordType::A.code(), root, hash, evidence)
    };
    assert_eq!(ask("welcome", hash, evidence(true, true)).unwrap().records.len(), 1);
    assert_eq!(
        ask("welcome", hash, evidence(true, false)),
        Err(ResolverError::NameNotFound),
    );
    assert_eq!(
        ask("welcome", hash, evidence(false, true)),
        Err(ResolverError::ProofNameMismatch),
    );
    assert_eq!(ask("other", hash, evidence(true, true)), Err(ResolverError::ProofNameMismatch));
    let other = NameHash::new(Hash256::new([4; 32]));
    assert_eq!(
        ask("welcome", other, evidence(true, true)),
        Err(ResolverError::ProofNameMismatch),
    );
}
