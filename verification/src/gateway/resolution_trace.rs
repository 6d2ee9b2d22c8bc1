//! The trace of a resolution, as the browser shows it.
use crate::dns;
use crate::dns::{RecordType, RecordView, ResourceRecord};
use crate::error::ResolverError;
use crate::gateway::errors::GatewayError;
use crate::gateway::fallback::{FallbackMarker, MarkerView};
use crate::gateway::input;
use crate::gateway::input::{GatewayHttpRequestInput, GatewayResolutionMode, InputView};
use crate::gateway::json;
use crate::gateway::trace;
use crate::gateway::trace::{DnsTraceEvent, EventView};
use crate::hash;
use crate::name;
use crate::resolver::{AnswerView, ResolutionAnswer};
use crate::text;
use crate::transport::types;
use crate::transport::types::{
    DaneDecision, DomainTrustMode, InspectionView, TlsCertificateInspection, TlsView, TlsaMatching,
    TlsaRecord, TlsaSelector, TlsaUsage, TlsaView, TlsValidation, TransportError, WebPkiStatus,
};
use vstd::prelude::*;
use vstd::string::*;

verus! {

/// The name of a record type, as the browser shows it.
pub open spec fn type_text(record_type: RecordType) -> Seq<char> {
    match record_type {
        RecordType::A => "A"@,
        RecordType::Aaaa => "AAAA"@,
        RecordType::Ns => "NS"@,
        RecordType::Ds => "DS"@,
        RecordType::Txt => "TXT"@,
        RecordType::Soa => "SOA"@,
        RecordType::Srv => "SRV"@,
        RecordType::Rrsig => "RRSIG"@,
        RecordType::Nsec => "NSEC"@,
        RecordType::Dnskey => "DNSKEY"@,
        RecordType::Nsec3 => "NSEC3"@,
        RecordType::Tlsa => "TLSA"@,
        RecordType::Svcb => "SVCB"@,
        RecordType::Https => "HTTPS"@,
        RecordType::Cname => "CNAME"@,
        RecordType::Unknown(code) => if code == 1 {
            "GLUE4"@
        } else if code == 2 {
            "GLUE6"@
        } else if code == 6 {
            "SYNTH4"@
        } else if code == 7 {
            "SYNTH6"@
        } else {
            "UNKNOWN"@
        },
    }
}

pub fn record_type_name(record_type: &RecordType) -> (r: &'static str)
    ensures
        r@ == type_text(*record_type),
{
    match record_type {
        RecordType::A => "A",
        RecordType::Aaaa => "AAAA",
        RecordType::Ns => "NS",
        RecordType::Ds => "DS",
        RecordType::Txt => "TXT",
        RecordType::Soa => "SOA",
        RecordType::Srv => "SRV",
        RecordType::Rrsig => "RRSIG",
        RecordType::Nsec => "NSEC",
        RecordType::Dnskey => "DNSKEY",
        RecordType::Nsec3 => "NSEC3",
        RecordType::Tlsa => "TLSA",
        RecordType::Svcb => "SVCB",
        RecordType::Https => "HTTPS",
        RecordType::Cname => "CNAME",
        RecordType::Unknown(code) => if *code == 1 {
            "GLUE4"
        } else if *code == 2 {
            "GLUE6"
        } else if *code == 6 {
            "SYNTH4"
        } else if *code == 7 {
            "SYNTH6"
        } else {
            "UNKNOWN"
        },
    }
}

pub open spec fn type_texts(records: Seq<RecordView>) -> Seq<Seq<char>> {
    Seq::new(records.len(), |i: int| type_text(records[i].record_type))
}

/// The types of records, in order, each once.
pub open spec fn types_list(records: Seq<RecordView>) -> Seq<char> {
    trace::quoted_list(trace::in_order(type_texts(records), records.len()))
}

pub fn record_types_list(records: &Vec<ResourceRecord>) -> (r: String)
    ensures
        r@ == types_list(dns::record_views(records@)),
{
    let ghost all = dns::record_views(records@);
    let ghost names = type_texts(all);
    let mut sorted: Vec<String> = Vec::new();
    let mut i: usize = 0;
    assert(text::texts(sorted@) =~= Seq::empty());
    while i < records.len()
        invariant
            i <= records@.len(),
            all == dns::record_views(records@),
            names == type_texts(all),
            text::texts(sorted@) == trace::in_order(names, i as nat),
        decreases records@.len() - i,
    {
        assert(all[i as int] == records@[i as int]@);
        assert(names[i as int] == type_text(records@[i as int].record_type));
        trace::place(&mut sorted, record_type_name(&records[i].record_type));
        i = i + 1;
    }
    assert(all.len() == records@.len());
    trace::json_string_list(&sorted)
}

/// Whether one of the first `n` questions went to a nameserver.
pub open spec fn asked_nameserver(events: Seq<EventView>, n: nat) -> bool {
    exists|i: int| 0 <= i < n && trace::is_authoritative(#[trigger] events[i])
}

fn nameserver_asked(events: &Vec<DnsTraceEvent>) -> (r: bool)
    ensures
        r == asked_nameserver(trace::event_views(events@), events@.len()),
{
    let ghost all = trace::event_views(events@);
    let mut i: usize = 0;
    while i < events.len()
        invariant
            i <= events@.len(),
            all == trace::event_views(events@),
            forall|j: int| 0 <= j < i ==> !trace::is_authoritative(#[trigger] all[j]),
        decreases events@.len() - i,
    {
        assert(all[i as int] == events@[i as int]@);
        if text::same_text(events[i].protocol, "udp53") || text::same_text(
            events[i].protocol,
            "tcp53",
        ) {
            return true;
        }
        i = i + 1;
    }
    false
}

pub open spec fn delegates(record: RecordView) -> bool {
    record.record_type == RecordType::Ns || record.record_type == RecordType::Ds
        || record.record_type == RecordType::Unknown(6)
}

pub open spec fn is_address(record: RecordView) -> bool {
    record.record_type == RecordType::A || record.record_type == RecordType::Aaaa
}

/// Whether the answer came by way of a delegation.
pub open spec fn is_delegated(answer: Option<AnswerView>, events: Seq<EventView>) -> bool {
    answer is Some && (asked_nameserver(events, events.len()) || exists|i: int|
        0 <= i < answer->0.records.len() && delegates(#[trigger] answer->0.records[i]))
}

/// Whether the answer has an address for the origin.
pub open spec fn has_address(answer: Option<AnswerView>) -> bool {
    answer is Some && exists|i: int|
        0 <= i < answer->0.records.len() && is_address(#[trigger] answer->0.records[i])
}

fn any_delegates(records: &Vec<ResourceRecord>) -> (r: bool)
    ensures
        r == exists|i: int|
            0 <= i < dns::record_views(records@).len() && delegates(
                #[trigger] dns::record_views(records@)[i],
            ),
{
    let ghost all = dns::record_views(records@);
    let mut i: usize = 0;
    while i < records.len()
        invariant
            i <= records@.len(),
            all == dns::record_views(records@),
            forall|j: int| 0 <= j < i ==> !delegates(#[trigger] all[j]),
        decreases records@.len() - i,
    {
        assert(all[i as int] == records@[i as int]@);
        let kind = records[i].record_type;
        if kind == RecordType::Ns || kind == RecordType::Ds || kind == RecordType::Unknown(6) {
            assert(delegates(all[i as int]));
            return true;
        }
        i = i + 1;
    }
    assert(all.len() == records@.len());
    false
}

fn any_address(records: &Vec<ResourceRecord>) -> (r: bool)
    ensures
        r == exists|i: int|
            0 <= i < dns::record_views(records@).len() && is_address(
                #[trigger] dns::record_views(records@)[i],
            ),
{
    let ghost all = dns::record_views(records@);
    let mut i: usize = 0;
    while i < records.len()
        invariant
            i <= records@.len(),
            all == dns::record_views(records@),
            forall|j: int| 0 <= j < i ==> !is_address(#[trigger] all[j]),
        decreases records@.len() - i,
    {
        assert(all[i as int] == records@[i as int]@);
        let kind = records[i].record_type;
        if kind == RecordType::A || kind == RecordType::Aaaa {
            assert(is_address(all[i as int]));
            return true;
        }
        i = i + 1;
    }
    assert(all.len() == records@.len());
    false
}

/// Why a request failed, and in words.
#[derive(Clone, Debug, PartialEq, Eq)]
pub struct GatewayFault {
    pub error: GatewayError,
    pub message: String,
}

pub open spec fn error_of(fault: Option<&GatewayFault>) -> Option<GatewayError> {
    match fault {
        Some(fault) => Some(fault.error),
        None => None,
    }
}

pub open spec fn message_of(fault: Option<&GatewayFault>) -> Option<Seq<char>> {
    match fault {
        Some(fault) => Some(fault.message@),
        None => None,
    }
}

/// What is shown of the proof.
pub open spec fn proof_text(answer: Option<AnswerView>, error: Option<GatewayError>) -> Seq<char> {
    if answer is Some && answer->0.secure {
        "verified"@
    } else {
        match error {
            Some(GatewayError::Resolver(ResolverError::ProofUnavailable)) => "unavailable"@,
            Some(GatewayError::Resolver(ResolverError::NameNotFound)) => "not_found"@,
            Some(GatewayError::Resolver(ResolverError::ProofNameMismatch)) => "failed"@,
            _ => "unknown"@,
        }
    }
}

fn proof_name(answer: Option<&ResolutionAnswer>, fault: Option<&GatewayFault>) -> (r: &'static str)
    ensures
        r@ == proof_text(answer_view(answer), error_of(fault)),
{
    if let Some(answer) = answer {
        if answer.secure {
            return "verified";
        }
    }
    match fault {
        Some(fault) => match &fault.error {
            GatewayError::Resolver(ResolverError::ProofUnavailable) => "unavailable",
            GatewayError::Resolver(ResolverError::NameNotFound) => "not_found",
            GatewayError::Resolver(ResolverError::ProofNameMismatch) => "failed",
            _ => "unknown",
        },
        None => "unknown",
    }
}

pub open spec fn answer_view(answer: Option<&ResolutionAnswer>) -> Option<AnswerView> {
    match answer {
        Some(answer) => Some(answer@),
        None => None,
    }
}

/// What is shown of DNSSEC.
pub open spec fn dnssec_text(answer: Option<AnswerView>, error: Option<GatewayError>) -> Seq<char> {
    if error == Some(GatewayError::Resolver(ResolverError::DnssecFailed)) {
        "bogus"@
    } else {
        match answer {
            Some(answer) => if answer.secure {
                "secure"@
            } else {
                "unsigned"@
            },
            None => "unknown"@,
        }
    }
}

pub fn dnssec_trace_status(answer: Option<&ResolutionAnswer>, fault: Option<&GatewayFault>) -> (r:
    &'static str)
    ensures
        r@ == dnssec_text(answer_view(answer), error_of(fault)),
{
    if let Some(fault) = fault {
        match &fault.error {
            GatewayError::Resolver(ResolverError::DnssecFailed) => {
                return "bogus";
            },
            _ => {},
        }
    }
    match answer {
        Some(answer) => if answer.secure {
            "secure"
        } else {
            "unsigned"
        },
        None => "unknown",
    }
}

/// The name under which the associations for a service stand.
pub open spec fn tlsa_owner(host: Seq<char>, port: u16) -> Seq<char> {
    "_"@ + text::decimal(port as nat) + "._tcp."@ + text::trim_end_dots(host)
}

pub fn tlsa_owner_name(host: &str, port: u16) -> (r: String)
    ensures
        r@ == tlsa_owner(host@, port),
{
    let mut out = "_".to_owned();
    text::push_decimal(&mut out, port as u64);
    out.append("._tcp.");
    let cs = text::chars_of(host);
    let bare = text::without_end_dots(&cs);
    let bare = text::text_of(&bare);
    out.append(bare.as_str());
    out
}

pub open spec fn tls_mode_text(mode: DomainTrustMode) -> Seq<char> {
    match mode {
        DomainTrustMode::HnsStrict => "hns_strict"@,
        DomainTrustMode::HnsCompatibility => "hns_compatibility"@,
        DomainTrustMode::IcannWebPki => "icann_webpki"@,
    }
}

pub fn tls_mode_name(tls: &TlsValidation) -> (r: &'static str)
    ensures
        r@ == tls_mode_text(tls.mode),
{
    match tls.mode {
        DomainTrustMode::HnsStrict => "hns_strict",
        DomainTrustMode::HnsCompatibility => "hns_compatibility",
        DomainTrustMode::IcannWebPki => "icann_webpki",
    }
}

pub open spec fn webpki_text(status: WebPkiStatus) -> Seq<char> {
    match status {
        WebPkiStatus::Valid => "valid"@,
        WebPkiStatus::Invalid => "invalid"@,
        WebPkiStatus::NotEvaluated => "not_evaluated"@,
    }
}

pub fn webpki_status_name(status: WebPkiStatus) -> (r: &'static str)
    ensures
        r@ == webpki_text(status),
{
    match status {
        WebPkiStatus::Valid => "valid",
        WebPkiStatus::Invalid => "invalid",
        WebPkiStatus::NotEvaluated => "not_evaluated",
    }
}

/// Whether an error is a failed certificate association.
pub open spec fn is_dane_failure(error: Option<GatewayError>) -> bool {
    match error {
        Some(GatewayError::InvalidTlsa(_)) => true,
        Some(GatewayError::Transport(TransportError::DaneFailed)) => true,
        _ => false,
    }
}

fn dane_failed(fault: Option<&GatewayFault>) -> (r: bool)
    ensures
        r == is_dane_failure(error_of(fault)),
{
    match fault {
        Some(fault) => match &fault.error {
            GatewayError::InvalidTlsa(_) => true,
            GatewayError::Transport(TransportError::DaneFailed) => true,
            _ => false,
        },
        None => false,
    }
}

/// What is shown of the decision on a certificate.
pub open spec fn decision_text(decision: Option<DaneDecision>, error: Option<GatewayError>) -> Seq<
    char,
> {
    match decision {
        Some(DaneDecision::Matched(_)) => "verified"@,
        Some(DaneDecision::WebPkiFallback) => "webpki_fallback"@,
        Some(DaneDecision::NoTlsa) => "no_tlsa"@,
        Some(DaneDecision::Failed) => "failed"@,
        None => if is_dane_failure(error) {
            "failed"@
        } else {
            "not_evaluated"@
        },
    }
}

pub fn dane_trace_decision(decision: Option<DaneDecision>, fault: Option<&GatewayFault>) -> (r:
    &'static str)
    ensures
        r@ == decision_text(decision, error_of(fault)),
{
    match decision {
        Some(DaneDecision::Matched(_)) => "verified",
        Some(DaneDecision::WebPkiFallback) => "webpki_fallback",
        Some(DaneDecision::NoTlsa) => "no_tlsa",
        Some(DaneDecision::Failed) => "failed",
        None => if dane_failed(fault) {
            "failed"
        } else {
            "not_evaluated"
        },
    }
}

/// What is shown of the certificate's match.
pub open spec fn match_text(decision: Option<DaneDecision>, error: Option<GatewayError>) -> Seq<char> {
    match decision {
        Some(DaneDecision::Matched(_)) => "pass"@,
        Some(DaneDecision::WebPkiFallback) => "webpki_valid"@,
        Some(DaneDecision::NoTlsa) => "not_checked"@,
        Some(DaneDecision::Failed) => "failed"@,
        None => if is_dane_failure(error) {
            "failed"@
        } else {
            "unknown"@
        },
    }
}

pub fn dane_certificate_match(decision: Option<DaneDecision>, fault: Option<&GatewayFault>) -> (r:
    &'static str)
    ensures
        r@ == match_text(decision, error_of(fault)),
{
    match decision {
        Some(DaneDecision::Matched(_)) => "pass",
        Some(DaneDecision::WebPkiFallback) => "webpki_valid",
        Some(DaneDecision::NoTlsa) => "not_checked",
        Some(DaneDecision::Failed) => "failed",
        None => if dane_failed(fault) {
            "failed"
        } else {
            "unknown"
        },
    }
}

pub open spec fn usage_text(usage: TlsaUsage) -> Seq<char> {
    match usage {
        TlsaUsage::PkixTa => "PKIX-TA"@,
        TlsaUsage::PkixEe => "PKIX-EE"@,
        TlsaUsage::DaneTa => "DANE-TA"@,
        TlsaUsage::DaneEe => "DANE-EE"@,
    }
}

pub fn tlsa_usage_name(usage: TlsaUsage) -> (r: &'static str)
    ensures
        r@ == usage_text(usage),
{
    match usage {
        TlsaUsage::PkixTa => "PKIX-TA",
        TlsaUsage::PkixEe => "PKIX-EE",
        TlsaUsage::DaneTa => "DANE-TA",
        TlsaUsage::DaneEe => "DANE-EE",
    }
}

pub open spec fn selector_text(selector: TlsaSelector) -> Seq<char> {
    match selector {
        TlsaSelector::FullCertificate => "Cert"@,
        TlsaSelector::SubjectPublicKeyInfo => "SPKI"@,
    }
}

pub fn tlsa_selector_name(selector: TlsaSelector) -> (r: &'static str)
    ensures
        r@ == selector_text(selector),
{
    match selector {
        TlsaSelector::FullCertificate => "Cert",
        TlsaSelector::SubjectPublicKeyInfo => "SPKI",
    }
}

pub open spec fn matching_text(matching: TlsaMatching) -> Seq<char> {
    match matching {
        TlsaMatching::Exact => "Exact"@,
        TlsaMatching::Sha256 => "SHA-256"@,
        TlsaMatching::Sha512 => "SHA-512"@,
    }
}

pub fn tlsa_matching_name(matching: TlsaMatching) -> (r: &'static str)
    ensures
        r@ == matching_text(matching),
{
    match matching {
        TlsaMatching::Exact => "Exact",
        TlsaMatching::Sha256 => "SHA-256",
        TlsaMatching::Sha512 => "SHA-512",
    }
}

pub open spec fn association_text(record: TlsaView) -> Seq<char> {
    "{\"usage\":\""@ + usage_text(record.usage) + "\",\"selector\":\""@ + selector_text(
        record.selector,
    ) + "\",\"matching\":\""@ + matching_text(record.matching) + "\",\"associationDataHex\":\""@
        + text::hex(record.association_data) + "\"}"@
}

pub fn tlsa_record_json(record: &TlsaRecord) -> (r: String)
    ensures
        r@ == association_text(record@),
{
    let mut out = "{\"usage\":\"".to_owned();
    out.append(tlsa_usage_name(record.usage));
    out.append("\",\"selector\":\"");
    out.append(tlsa_selector_name(record.selector));
    out.append("\",\"matching\":\"");
    out.append(tlsa_matching_name(record.matching));
    out.append("\",\"associationDataHex\":\"");
    let data = text::hex_text(&record.association_data);
    out.append(data.as_str());
    out.append("\"}");
    out
}

pub open spec fn association_texts(records: Seq<TlsaView>) -> Seq<Seq<char>> {
    Seq::new(records.len(), |i: int| association_text(records[i]))
}

pub open spec fn associations_text(records: Seq<TlsaView>) -> Seq<char> {
    "["@ + json::joined(association_texts(records), records.len()) + "]"@
}

pub fn tlsa_records_json(records: &Vec<TlsaRecord>) -> (r: String)
    ensures
        r@ == associations_text(types::tlsa_views(records@)),
{
    let ghost all = types::tlsa_views(records@);
    let mut items: Vec<String> = Vec::new();
    let mut i: usize = 0;
    assert(text::texts(items@) =~= association_texts(all).take(0));
    while i < records.len()
        invariant
            i <= records@.len(),
            all == types::tlsa_views(records@),
            text::texts(items@) == association_texts(all).take(i as int),
        decreases records@.len() - i,
    {
        let ghost before = text::texts(items@);
        let item = tlsa_record_json(&records[i]);
        let ghost seen = item@;
        items.push(item);
        assert(text::texts(items@) =~= before.push(seen));
        assert(association_texts(all).take(i + 1) =~= before.push(
            association_texts(all)[i as int],
        ));
        i = i + 1;
    }
    assert(association_texts(all).take(i as int) =~= association_texts(all));
    assert(text::texts(items@).len() == items@.len());
    let list = json::json_join(&items);
    let mut out = "[".to_owned();
    out.append(list.as_str());
    out.append("]");
    out
}

/// The SHA-256 digest of bytes, in hexadecimal.
pub open spec fn digest_text(bytes: Seq<u8>) -> Seq<char> {
    text::hex(hash::sha2_256(bytes))
}

pub fn sha256_hex(value: &Vec<u8>) -> (r: String)
    ensures
        r@ == digest_text(value@),
{
    let digest = hash::sha256(value);
    text::hex_text(&digest)
}

/// The SHA-256 digests of the certificates of an inspection.
#[derive(Clone, Debug, PartialEq, Eq)]
pub struct CertificateDigests {
    pub end_entity: Vec<u8>,
    pub spki: Vec<u8>,
    pub intermediates: Vec<Vec<u8>>,
}

pub struct DigestsView {
    pub end_entity: Seq<u8>,
    pub spki: Seq<u8>,
    pub intermediates: Seq<Seq<u8>>,
}

impl View for CertificateDigests {
    type V = DigestsView;

    open spec fn view(&self) -> DigestsView {
        DigestsView {
            end_entity: self.end_entity@,
            spki: self.spki@,
            intermediates: types::byte_views(self.intermediates@),
        }
    }
}

pub open spec fn digests_of(inspection: InspectionView) -> DigestsView {
    DigestsView {
        end_entity: hash::sha2_256(inspection.end_entity_der),
        spki: hash::sha2_256(inspection.end_entity_spki_der),
        intermediates: Seq::new(
            inspection.intermediate_der.len(),
            |i: int| hash::sha2_256(inspection.intermediate_der[i]),
        ),
    }
}

fn digest_certificates(inspection: &TlsCertificateInspection) -> (r: CertificateDigests)
    ensures
        r@ == digests_of(inspection@),
{
    let ghost all = digests_of(inspection@).intermediates;
    let mut intermediates: Vec<Vec<u8>> = Vec::new();
    let mut i: usize = 0;
    assert(types::byte_views(intermediates@) =~= all.take(0));
    while i < inspection.intermediate_der.len()
        invariant
            i <= inspection.intermediate_der@.len(),
            all == digests_of(inspection@).intermediates,
            types::byte_views(intermediates@) == all.take(i as int),
        decreases inspection.intermediate_der@.len() - i,
    {
        let ghost before = types::byte_views(intermediates@);
        let digest = hash::sha256(&inspection.intermediate_der[i]);
        let ghost seen = digest@;
        intermediates.push(digest);
        assert(types::byte_views(intermediates@) =~= before.push(seen));
        assert(inspection@.intermediate_der[i as int] == inspection.intermediate_der@[i as int]@);
        assert(all.take(i + 1) =~= before.push(all[i as int]));
        i = i + 1;
    }
    assert(all.take(i as int) =~= all);
    CertificateDigests {
        end_entity: hash::sha256(&inspection.end_entity_der),
        spki: hash::sha256(&inspection.end_entity_spki_der),
        intermediates,
    }
}

pub open spec fn quoted_hex(digests: Seq<Seq<u8>>) -> Seq<Seq<char>> {
    Seq::new(digests.len(), |i: int| "\""@ + text::hex(digests[i]) + "\""@)
}

/// What is shown of a certificate with the given digests.
pub open spec fn inspected_text(inspection: InspectionView, digests: DigestsView) -> Seq<char> {
    "{\"webPkiStatus\":\""@ + webpki_text(inspection.webpki_status)
        + "\",\"endEntitySha256\":\""@ + text::hex(digests.end_entity)
        + "\",\"spkiSha256\":\""@ + text::hex(digests.spki) + "\",\"spkiDerHex\":\""@ + text::hex(
        inspection.end_entity_spki_der,
    ) + "\",\"intermediateCount\":"@ + text::decimal(inspection.intermediate_der.len())
        + ",\"intermediateSha256\":["@ + json::joined(
        quoted_hex(digests.intermediates),
        digests.intermediates.len(),
    ) + "]}"@
}

/// What is shown of a certificate.
pub open spec fn inspection_text(inspection: Option<InspectionView>) -> Seq<char> {
    match inspection {
        None => "null"@,
        Some(inspection) => inspected_text(inspection, digests_of(inspection)),
    }
}

fn hex_list(digests: &Vec<Vec<u8>>) -> (r: String)
    ensures
        r@ == json::joined(quoted_hex(types::byte_views(digests@)), digests@.len()),
{
    let ghost all = types::byte_views(digests@);
    let mut items: Vec<String> = Vec::new();
    let mut i: usize = 0;
    assert(text::texts(items@) =~= quoted_hex(all).take(0));
    while i < digests.len()
        invariant
            i <= digests@.len(),
            all == types::byte_views(digests@),
            text::texts(items@) == quoted_hex(all).take(i as int),
        decreases digests@.len() - i,
    {
        let ghost before = text::texts(items@);
        let digest = text::hex_text(&digests[i]);
        let mut item = "\"".to_owned();
        item.append(digest.as_str());
        item.append("\"");
        let ghost seen = item@;
        items.push(item);
        assert(text::texts(items@) =~= before.push(seen));
        assert(quoted_hex(all).take(i + 1) =~= before.push(quoted_hex(all)[i as int]));
        i = i + 1;
    }
    assert(quoted_hex(all).take(i as int) =~= quoted_hex(all));
    assert(text::texts(items@).len() == items@.len());
    json::json_join(&items)
}

pub open spec fn inspection_ref(inspection: Option<&TlsCertificateInspection>) -> Option<
    InspectionView,
> {
    match inspection {
        Some(inspection) => Some(inspection@),
        None => None,
    }
}

/// Shows a certificate with the given digests.
pub fn inspection_json(inspection: &TlsCertificateInspection, digests: &CertificateDigests) -> (r:
    String)
    ensures
        r@ == inspected_text(inspection@, digests@),
{
    let entity = text::hex_text(&digests.end_entity);
    let spki = text::hex_text(&digests.spki);
    let spki_der = text::hex_text(&inspection.end_entity_spki_der);
    let list = hex_list(&digests.intermediates);
    assert(inspection@.intermediate_der.len() == inspection.intermediate_der@.len());
    assert(digests@.intermediates.len() == digests.intermediates@.len());
    let mut out = "{\"webPkiStatus\":\"".to_owned();
    out.append(webpki_status_name(inspection.webpki_status));
    out.append("\",\"endEntitySha256\":\"");
    out.append(entity.as_str());
    out.append("\",\"spkiSha256\":\"");
    out.append(spki.as_str());
    out.append("\",\"spkiDerHex\":\"");
    out.append(spki_der.as_str());
    out.append("\",\"intermediateCount\":");
    text::push_decimal(&mut out, inspection.intermediate_der.len() as u64);
    out.append(",\"intermediateSha256\":[");
    out.append(list.as_str());
    out.append("]}");
    out
}

pub fn tls_certificate_inspection_json(inspection: Option<&TlsCertificateInspection>) -> (r: String)
    ensures
        r@ == inspection_text(inspection_ref(inspection)),
{
    match inspection {
        Some(inspection) => {
            let digests = digest_certificates(inspection);
            inspection_json(inspection, &digests)
        },
        None => "null".to_owned(),
    }
}

/// What is known of the TLS connection to the origin.
#[derive(Clone, Copy)]
pub struct TlsTraceInput<'a> {
    pub validation: Option<&'a TlsValidation>,
    pub decision: Option<DaneDecision>,
    pub inspection: Option<&'a TlsCertificateInspection>,
}

pub struct TlsTraceView {
    pub validation: Option<TlsView>,
    pub decision: Option<DaneDecision>,
    pub inspection: Option<InspectionView>,
}

impl<'a> View for TlsTraceInput<'a> {
    type V = TlsTraceView;

    open spec fn view(&self) -> TlsTraceView {
        TlsTraceView {
            validation: match self.validation {
                Some(validation) => Some(validation@),
                None => None,
            },
            decision: self.decision,
            inspection: inspection_ref(self.inspection),
        }
    }
}

/// Nothing known.
pub open spec fn no_tls() -> TlsTraceView {
    TlsTraceView { validation: None, decision: None, inspection: None }
}

/// Whether there is anything to show of TLS.
pub open spec fn shows_tls(input: InputView, tls: TlsTraceView) -> bool {
    text::same_ignoring_case(input.scheme, "https"@) || (tls.validation is Some
        && tls.validation->0.tlsa_records.len() > 0) || tls.decision is Some
}

/// What is shown of the TLS connection to the origin.
pub open spec fn tls_text(input: InputView, tls: TlsTraceView, error: Option<GatewayError>) -> Seq<
    char,
> {
    if !shows_tls(input, tls) {
        "null"@
    } else {
        "{\"mode\":"@ + (match tls.validation {
            Some(validation) => json::quoted(tls_mode_text(validation.mode)),
            None => "null"@,
        }) + ",\"tlsaOwner\":\""@ + json::escaped(tlsa_owner(input.host, input.port))
            + "\",\"tlsaFound\":"@ + json::bool_text(
            tls.validation is Some && tls.validation->0.tlsa_records.len() > 0,
        ) + ",\"dnssecSecure\":"@ + (match tls.validation {
            Some(validation) => json::bool_text(validation.dnssec_secure),
            None => "null"@,
        }) + ",\"records\":"@ + (match tls.validation {
            Some(validation) => associations_text(validation.tlsa_records),
            None => "[]"@,
        }) + ",\"certificate\":"@ + inspection_text(tls.inspection)
            + ",\"dane\":{\"decision\":\""@ + decision_text(tls.decision, error)
            + "\",\"matchedUsage\":"@ + (match tls.decision {
            Some(DaneDecision::Matched(usage)) => "\""@ + usage_text(usage) + "\""@,
            _ => "null"@,
        }) + ",\"certificateMatch\":\""@ + match_text(tls.decision, error)
            + "\",\"webPkiFallback\":"@ + json::bool_text(
            tls.decision == Some(DaneDecision::WebPkiFallback),
        ) + "}}"@
    }
}

pub fn tls_trace_json(
    input: &GatewayHttpRequestInput<'_>,
    tls: TlsTraceInput<'_>,
    fault: Option<&GatewayFault>,
) -> (r: String)
    ensures
        r@ == tls_text(input@, tls@, error_of(fault)),
{
    let found = match tls.validation {
        Some(validation) => validation.tlsa_records.len() > 0,
        None => false,
    };
    assert(found == (tls@.validation is Some && tls@.validation->0.tlsa_records.len() > 0));
    if !text::eq_ignore_case(input.scheme, "https") && !found && tls.decision.is_none() {
        return "null".to_owned();
    }
    let owner = tlsa_owner_name(input.host, input.port);
    let owner = json::json_escape(owner.as_str());
    let mode = match tls.validation {
        Some(validation) => json::json_string(tls_mode_name(validation)),
        None => "null".to_owned(),
    };
    let records = match tls.validation {
        Some(validation) => tlsa_records_json(&validation.tlsa_records),
        None => "[]".to_owned(),
    };
    let certificate = tls_certificate_inspection_json(tls.inspection);
    let usage = match tls.decision {
        Some(DaneDecision::Matched(usage)) => {
            let mut text = "\"".to_owned();
            text.append(tlsa_usage_name(usage));
            text.append("\"");
            text
        },
        _ => "null".to_owned(),
    };
    let fallback = match tls.decision {
        Some(DaneDecision::WebPkiFallback) => true,
        _ => false,
    };
    let mut out = "{\"mode\":".to_owned();
    out.append(mode.as_str());
    out.append(",\"tlsaOwner\":\"");
    out.append(owner.as_str());
    out.append("\",\"tlsaFound\":");
    out.append(json::json_bool(found));
    out.append(",\"dnssecSecure\":");
    out.append(
        match tls.validation {
            Some(validation) => json::json_bool(validation.dnssec_secure),
            None => "null",
        },
    );
    out.append(",\"records\":");
    out.append(records.as_str());
    out.append(",\"certificate\":");
    out.append(certificate.as_str());
    out.append(",\"dane\":{\"decision\":\"");
    out.append(dane_trace_decision(tls.decision, fault));
    out.append("\",\"matchedUsage\":");
    out.append(usage.as_str());
    out.append(",\"certificateMatch\":\"");
    out.append(dane_certificate_match(tls.decision, fault));
    out.append("\",\"webPkiFallback\":");
    out.append(json::json_bool(fallback));
    out.append("}}");
    out
}

/// All that a trace is made of.
pub struct TraceView {
    pub input: InputView,
    pub mode: GatewayResolutionMode,
    pub answer: Option<AnswerView>,
    pub tls: TlsTraceView,
    pub error: Option<GatewayError>,
    pub message: Option<Seq<char>>,
    pub marker: MarkerView,
    pub events: Seq<EventView>,
}

/// The trace of a resolution.
pub open spec fn trace_text(t: TraceView) -> Seq<char> {
    "{\"host\":\""@ + json::escaped(t.input.host) + "\",\"url\":\""@ + json::escaped(
        input::address_of(t.input),
    ) + "\",\"root\":\""@ + json::escaped(name::trace_root(t.input.host)) + "\",\"mode\":\""@
        + t.mode.text() + "\",\"hnsProof\":\""@ + proof_text(t.answer, t.error)
        + "\",\"delegation\":"@ + json::bool_text(is_delegated(t.answer, t.events))
        + ",\"resourceRecords\":["@ + (match t.answer {
        Some(answer) => types_list(answer.records),
        None => ""@,
    }) + "],\"nameserverCandidates\":"@ + trace::candidates_text(t.events)
        + ",\"authoritativeDns\":"@ + trace::authoritative_text(t.events) + ",\"dnssec\":\""@
        + dnssec_text(t.answer, t.error) + "\",\"originAddress\":\""@ + (if has_address(t.answer) {
        "found"@
    } else {
        "missing"@
    }) + "\",\"tls\":"@ + tls_text(t.input, t.tls, t.error) + ",\"fallback\":{\"used\":"@
        + json::bool_text(t.marker.used) + ",\"type\":"@ + (if t.marker.used {
        "\"HNS_DOH\""@
    } else {
        "null"@
    }) + ",\"reason\":"@ + (if t.marker.used {
        json::quoted(
            match t.marker.reason {
                Some(reason) => reason,
                None => "none"@,
            },
        )
    } else {
        "null"@
    }) + "},\"dnsAttempts\":["@ + trace::attempts_text(t.events) + "],\"finalError\":"@
        + json::quoted_or_null(t.message) + "}"@
}

#[verifier::rlimit(60)]
#[verifier::spinoff_prover]
pub fn resolution_trace_json(
    input: &GatewayHttpRequestInput<'_>,
    mode: GatewayResolutionMode,
    resolution: Option<&ResolutionAnswer>,
    tls: TlsTraceInput<'_>,
    fault: Option<&GatewayFault>,
    fallback_marker: &FallbackMarker,
    dns_events: &Vec<DnsTraceEvent>,
) -> (r: String)
    ensures
        r@ == trace_text(
            TraceView {
                input: input@,
                mode,
                answer: answer_view(resolution),
                tls: tls@,
                error: error_of(fault),
                message: message_of(fault),
                marker: fallback_marker@,
                events: trace::event_views(dns_events@),
            },
        ),
{
    let host = json::json_escape(input.host);
    let address = input::gateway_request_address(input);
    let url = json::json_escape(address.as_str());
    let root = name::hns_trace_root(input.host);
    let root = json::json_escape(root.as_str());
    let types = match resolution {
        Some(answer) => record_types_list(&answer.records),
        None => "".to_owned(),
    };
    let asked = nameserver_asked(dns_events);
    assert(trace::event_views(dns_events@).len() == dns_events@.len());
    let delegated = match resolution {
        Some(answer) => asked || any_delegates(&answer.records),
        None => false,
    };
    let addressed = match resolution {
        Some(answer) => any_address(&answer.records),
        None => false,
    };
    let candidates = trace::nameserver_candidates_json(dns_events);
    let authoritative = trace::authoritative_dns_trace_json(dns_events);
    let tls_json = tls_trace_json(input, tls, fault);
    let attempts = trace::dns_trace_attempts_json(dns_events);
    let reason = if fallback_marker.used {
        match fallback_marker.reason {
            Some(reason) => json::json_string(reason),
            None => json::json_string("none"),
        }
    } else {
        "null".to_owned()
    };
    let final_error = match fault {
        Some(fault) => json::json_string(fault.message.as_str()),
        None => "null".to_owned(),
    };
    let mut out = "{\"host\":\"".to_owned();
    out.append(host.as_str());
    out.append("\",\"url\":\"");
    out.append(url.as_str());
    out.append("\",\"root\":\"");
    out.append(root.as_str());
    out.append("\",\"mode\":\"");
    out.append(mode.as_str());
    out.append("\",\"hnsProof\":\"");
    out.append(proof_name(resolution, fault));
    out.append("\",\"delegation\":");
    out.append(json::json_bool(delegated));
    out.append(",\"resourceRecords\":[");
    out.append(types.as_str());
    out.append("],\"nameserverCandidates\":");
    out.append(candidates.as_str());
    out.append(",\"authoritativeDns\":");
    out.append(authoritative.as_str());
    out.append(",\"dnssec\":\"");
    out.append(dnssec_trace_status(resolution, fault));
    out.append("\",\"originAddress\":\"");
    if addressed {
        out.append("found");
    } else {
        out.append("missing");
    }
    out.append("\",\"tls\":");
    out.append(tls_json.as_str());
    out.append(",\"fallback\":{\"used\":");
    out.append(json::json_bool(fallback_marker.used));
    out.append(",\"type\":");
    if fallback_marker.used {
        out.append("\"HNS_DOH\"");
    } else {
        out.append("null");
    }
    out.append(",\"reason\":");
    out.append(reason.as_str());
    out.append("},\"dnsAttempts\":[");
    out.append(attempts.as_str());
    out.append("],\"finalError\":");
    out.append(final_error.as_str());
    out.append("}");
    out
}

/// Every part of a certificate association is told under its own name.
#[verifier::rlimit(60)]
pub proof fn law_association_tells_each_of_its_parts(record: TlsaView)
    ensures
        text::contains_text(association_text(record), "{\"usage\":\""@ + usage_text(record.usage)),
        text::contains_text(
            association_text(record),
            "\",\"selector\":\""@ + selector_text(record.selector),
        ),
        text::contains_text(
            association_text(record),
            "\",\"matching\":\""@ + matching_text(record.matching),
        ),
        text::contains_text(
            association_text(record),
            "\",\"associationDataHex\":\""@ + text::hex(record.association_data),
        ),
{
    let pieces = seq![
        "{\"usage\":\""@,
        usage_text(record.usage),
        "\",\"selector\":\""@,
        selector_text(record.selector),
        "\",\"matching\":\""@,
        matching_text(record.matching),
        "\",\"associationDataHex\":\""@,
        text::hex(record.association_data),
        "\"}"@,
    ];
    reveal_with_fuel(json::chained, 10);
    assert(association_text(record) == json::chained(pieces, 9));
    json::lemma_chain_holds(pieces, 9, 0);
    json::lemma_chain_holds(pieces, 9, 2);
    json::lemma_chain_holds(pieces, 9, 4);
    json::lemma_chain_holds(pieces, 9, 6);
}

/// Every part of a trace is told under its own name.
#[verifier::rlimit(60)]
pub proof fn law_trace_tells_each_of_its_parts(t: TraceView)
    ensures
        text::contains_text(trace_text(t), "{\"host\":\""@ + json::escaped(t.input.host)),
        text::contains_text(
            trace_text(t),
            "\",\"url\":\""@ + json::escaped(input::address_of(t.input)),
        ),
        text::contains_text(
            trace_text(t),
            "\",\"root\":\""@ + json::escaped(name::trace_root(t.input.host)),
        ),
        text::contains_text(trace_text(t), "\",\"mode\":\""@ + t.mode.text()),
        text::contains_text(trace_text(t), "\",\"hnsProof\":\""@ + proof_text(t.answer, t.error)),
        text::contains_text(
            trace_text(t),
            "\",\"delegation\":"@ + json::bool_text(is_delegated(t.answer, t.events)),
        ),
        text::contains_text(
            trace_text(t),
            ",\"resourceRecords\":["@ + (match t.answer {
                Some(answer) => types_list(answer.records),
                None => ""@,
            }),
        ),
        text::contains_text(
            trace_text(t),
            "],\"nameserverCandidates\":"@ + trace::candidates_text(t.events),
        ),
        text::contains_text(
            trace_text(t),
            ",\"authoritativeDns\":"@ + trace::authoritative_text(t.events),
        ),
        text::contains_text(trace_text(t), ",\"dnssec\":\""@ + dnssec_text(t.answer, t.error)),
        text::contains_text(
            trace_text(t),
            "\",\"originAddress\":\""@ + (if has_address(t.answer) {
                "found"@
            } else {
                "missing"@
            }),
        ),
        text::contains_text(trace_text(t), "\",\"tls\":"@ + tls_text(t.input, t.tls, t.error)),
        text::contains_text(
            trace_text(t),
            ",\"fallback\":{\"used\":"@ + json::bool_text(t.marker.used),
        ),
        text::contains_text(
            trace_text(t),
            ",\"type\":"@ + (if t.marker.used { "\"HNS_DOH\""@ } else { "null"@ }),
        ),
        text::contains_text(
            trace_text(t),
            ",\"reason\":"@ + (if t.marker.used {
                json::quoted(
                    match t.marker.reason {
                        Some(reason) => reason,
                        None => "none"@,
                    },
                )
            } else {
                "null"@
            }),
        ),
        text::contains_text(trace_text(t), "},\"dnsAttempts\":["@ + trace::attempts_text(t.events)),
        text::contains_text(trace_text(t), "],\"finalError\":"@ + json::quoted_or_null(t.message)),
{
    let pieces = seq![
        "{\"host\":\""@,
        json::escaped(t.input.host),
        "\",\"url\":\""@,
        json::escaped(input::address_of(t.input)),
        "\",\"root\":\""@,
        json::escaped(name::trace_root(t.input.host)),
        "\",\"mode\":\""@,
        t.mode.text(),
        "\",\"hnsProof\":\""@,
        proof_text(t.answer, t.error),
        "\",\"delegation\":"@,
        json::bool_text(is_delegated(t.answer, t.events)),
        ",\"resourceRecords\":["@,
        (match t.answer { Some(answer) => types_list(answer.records), None => ""@, }),
        "],\"nameserverCandidates\":"@,
        trace::candidates_text(t.events),
        ",\"authoritativeDns\":"@,
        trace::authoritative_text(t.events),
        ",\"dnssec\":\""@,
        dnssec_text(t.answer, t.error),
        "\",\"originAddress\":\""@,
        (if has_address(t.answer) { "found"@ } else { "missing"@ }),
        "\",\"tls\":"@,
        tls_text(t.input, t.tls, t.error),
        ",\"fallback\":{\"used\":"@,
        json::bool_text(t.marker.used),
        ",\"type\":"@,
        (if t.marker.used { "\"HNS_DOH\""@ } else { "null"@ }),
        ",\"reason\":"@,
        (if t.marker.used {
            json::quoted(
                match t.marker.reason {
                    Some(reason) => reason,
                    None => "none"@,
                },
            )
        } else {
            "null"@
        }),
        "},\"dnsAttempts\":["@,
        trace::attempts_text(t.events),
        "],\"finalError\":"@,
        json::quoted_or_null(t.message),
        "}"@,
    ];
    reveal_with_fuel(json::chained, 36);
    assert(trace_text(t) == json::chained(pieces, 35));
    json::lemma_chain_holds(pieces, 35, 0);
    json::lemma_chain_holds(pieces, 35, 2);
    json::lemma_chain_holds(pieces, 35, 4);
    json::lemma_chain_holds(pieces, 35, 6);
    json::lemma_chain_holds(pieces, 35, 8);
    json::lemma_chain_holds(pieces, 35, 10);
    json::lemma_chain_holds(pieces, 35, 12);
    json::lemma_chain_holds(pieces, 35, 14);
    json::lemma_chain_holds(pieces, 35, 16);
    json::lemma_chain_holds(pieces, 35, 18);
    json::lemma_chain_holds(pieces, 35, 20);
    json::lemma_chain_holds(pieces, 35, 22);
    json::lemma_chain_holds(pieces, 35, 24);
    json::lemma_chain_holds(pieces, 35, 26);
    json::lemma_chain_holds(pieces, 35, 28);
    json::lemma_chain_holds(pieces, 35, 30);
    json::lemma_chain_holds(pieces, 35, 32);
}

/// Every part of what is shown of a certificate is told under its own name.
#[verifier::rlimit(60)]
pub proof fn law_certificate_tells_each_of_its_parts(inspection: InspectionView, digests: DigestsView)
    ensures
        text::contains_text(
            inspected_text(inspection, digests),
            "{\"webPkiStatus\":\""@ + webpki_text(inspection.webpki_status),
        ),
        text::contains_text(
            inspected_text(inspection, digests),
            "\",\"endEntitySha256\":\""@ + text::hex(digests.end_entity),
        ),
        text::contains_text(
            inspected_text(inspection, digests),
            "\",\"spkiSha256\":\""@ + text::hex(digests.spki),
        ),
        text::contains_text(
            inspected_text(inspection, digests),
            "\",\"spkiDerHex\":\""@ + text::hex(inspection.end_entity_spki_der),
        ),
        text::contains_text(
            inspected_text(inspection, digests),
            "\",\"intermediateCount\":"@ + text::decimal(inspection.intermediate_der.len()),
        ),
        text::contains_text(
            inspected_text(inspection, digests),
            ",\"intermediateSha256\":["@ + json::joined(quoted_hex(digests.intermediates), digests.intermediates.len()),
        ),
{
    let pieces = seq![
        "{\"webPkiStatus\":\""@,
        webpki_text(inspection.webpki_status),
        "\",\"endEntitySha256\":\""@,
        text::hex(digests.end_entity),
        "\",\"spkiSha256\":\""@,
        text::hex(digests.spki),
        "\",\"spkiDerHex\":\""@,
        text::hex(inspection.end_entity_spki_der),
        "\",\"intermediateCount\":"@,
        text::decimal(inspection.intermediate_der.len()),
        ",\"intermediateSha256\":["@,
        json::joined(quoted_hex(digests.intermediates), digests.intermediates.len()),
        "]}"@,
    ];
    reveal_with_fuel(json::chained, 14);
    assert(inspected_text(inspection, digests) == json::chained(pieces, 13));
    json::lemma_chain_holds(pieces, 13, 0);
    json::lemma_chain_holds(pieces, 13, 2);
    json::lemma_chain_holds(pieces, 13, 4);
    json::lemma_chain_holds(pieces, 13, 6);
    json::lemma_chain_holds(pieces, 13, 8);
    json::lemma_chain_holds(pieces, 13, 10);
}

/// Every part of what is shown of TLS is told under its own name.
#[verifier::rlimit(60)]
pub proof fn law_tls_tells_each_of_its_parts(
    input: InputView,
    tls: TlsTraceView,
    error: Option<GatewayError>,
)
    requires
        shows_tls(input, tls),
    ensures
        text::contains_text(
            tls_text(input, tls, error),
            "{\"mode\":"@ + (match tls.validation {
                Some(validation) => json::quoted(tls_mode_text(validation.mode)),
                None => "null"@,
            }),
        ),
        text::contains_text(
            tls_text(input, tls, error),
            ",\"tlsaOwner\":\""@ + json::escaped(tlsa_owner(input.host, input.port)),
        ),
        text::contains_text(
            tls_text(input, tls, error),
            "\",\"tlsaFound\":"@ + json::bool_text(tls.validation is Some && tls.validation->0.tlsa_records.len() > 0),
        ),
        text::contains_text(
            tls_text(input, tls, error),
            ",\"dnssecSecure\":"@ + (match tls.validation {
                Some(validation) => json::bool_text(validation.dnssec_secure),
                None => "null"@,
            }),
        ),
        text::contains_text(
            tls_text(input, tls, error),
            ",\"records\":"@ + (match tls.validation {
                Some(validation) => associations_text(validation.tlsa_records),
                None => "[]"@,
            }),
        ),
        text::contains_text(
            tls_text(input, tls, error),
            ",\"certificate\":"@ + inspection_text(tls.inspection),
        ),
        text::contains_text(
            tls_text(input, tls, error),
            ",\"dane\":{\"decision\":\""@ + decision_text(tls.decision, error),
        ),
        text::contains_text(
            tls_text(input, tls, error),
            "\",\"matchedUsage\":"@ + (match tls.decision {
                Some(DaneDecision::Matched(usage)) => "\""@ + usage_text(usage) + "\""@,
                _ => "null"@,
            }),
        ),
        text::contains_text(
            tls_text(input, tls, error),
            ",\"certificateMatch\":\""@ + match_text(tls.decision, error),
        ),
        text::contains_text(
            tls_text(input, tls, error),
            "\",\"webPkiFallback\":"@ + json::bool_text(tls.decision == Some(DaneDecision::WebPkiFallback)),
        ),
{
    let pieces = seq![
        "{\"mode\":"@,
        (match tls.validation {
            Some(validation) => json::quoted(tls_mode_text(validation.mode)),
            None => "null"@,
        }),
        ",\"tlsaOwner\":\""@,
        json::escaped(tlsa_owner(input.host, input.port)),
        "\",\"tlsaFound\":"@,
        json::bool_text(tls.validation is Some && tls.validation->0.tlsa_records.len() > 0),
        ",\"dnssecSecure\":"@,
        (match tls.validation {
            Some(validation) => json::bool_text(validation.dnssec_secure),
            None => "null"@,
        }),
        ",\"records\":"@,
        (match tls.validation {
            Some(validation) => associations_text(validation.tlsa_records),
            None => "[]"@,
        }),
        ",\"certificate\":"@,
        inspection_text(tls.inspection),
        ",\"dane\":{\"decision\":\""@,
        decision_text(tls.decision, error),
        "\",\"matchedUsage\":"@,
        (match tls.decision {
            Some(DaneDecision::Matched(usage)) => "\""@ + usage_text(usage) + "\""@,
            _ => "null"@,
        }),
        ",\"certificateMatch\":\""@,
        match_text(tls.decision, error),
        "\",\"webPkiFallback\":"@,
        json::bool_text(tls.decision == Some(DaneDecision::WebPkiFallback)),
        "}}"@,
    ];
    reveal_with_fuel(json::chained, 22);
    assert(tls_text(input, tls, error) == json::chained(pieces, 21));
    json::lemma_chain_holds(pieces, 21, 0);
    json::lemma_chain_holds(pieces, 21, 2);
    json::lemma_chain_holds(pieces, 21, 4);
    json::lemma_chain_holds(pieces, 21, 6);
    json::lemma_chain_holds(pieces, 21, 8);
    json::lemma_chain_holds(pieces, 21, 10);
    json::lemma_chain_holds(pieces, 21, 12);
    json::lemma_chain_holds(pieces, 21, 14);
    json::lemma_chain_holds(pieces, 21, 16);
    json::lemma_chain_holds(pieces, 21, 18);
}

/// A proof is shown as verified exactly for a secure answer, and an answer as
/// secure only where its signatures did not fail.
pub proof fn law_only_secure_answers_are_shown_as_such(
    answer: Option<AnswerView>,
    error: Option<GatewayError>,
)
    ensures
        proof_text(answer, error) == "verified"@ <==> answer is Some && answer->0.secure,
        dnssec_text(answer, error) == "secure"@ <==> answer is Some && answer->0.secure && error
            != Some(GatewayError::Resolver(ResolverError::DnssecFailed)),
        dnssec_text(answer, error) == "bogus"@ <==> error == Some(
            GatewayError::Resolver(ResolverError::DnssecFailed),
        ),
        answer is None ==> (proof_text(answer, error) == "not_found"@ <==> error == Some(
            GatewayError::Resolver(ResolverError::NameNotFound),
        )),
        answer is None ==> (proof_text(answer, error) == "unavailable"@ <==> error == Some(
            GatewayError::Resolver(ResolverError::ProofUnavailable),
        )),
{
    reveal_strlit("verified");
    reveal_strlit("unavailable");
    reveal_strlit("not_found");
    reveal_strlit("failed");
    reveal_strlit("unknown");
    reveal_strlit("bogus");
    reveal_strlit("secure");
    reveal_strlit("unsigned");
    assert("verified"@.len() == 8 && "unavailable"@.len() == 11 && "not_found"@.len() == 9
        && "failed"@.len() == 6 && "unknown"@.len() == 7);
    assert("bogus"@.len() == 5 && "secure"@.len() == 6 && "unsigned"@.len() == 8);
}

/// A certificate is shown as verified exactly where it matched an association, and
/// as failed where it did not, or where the associations could not be read.
pub proof fn law_only_matched_certificates_are_shown_as_such(
    decision: Option<DaneDecision>,
    error: Option<GatewayError>,
)
    ensures
        decision_text(decision, error) == "verified"@ <==> decision is Some && decision->0
            is Matched,
        match_text(decision, error) == "pass"@ <==> decision is Some && decision->0 is Matched,
        decision_text(decision, error) == "failed"@ <==> decision == Some(DaneDecision::Failed) || (
        decision is None && error is Some && (error->0 is InvalidTlsa || error->0
            == GatewayError::Transport(TransportError::DaneFailed))),
        match_text(decision, error) == "failed"@ <==> decision_text(decision, error) == "failed"@,
        decision_text(decision, error) == "webpki_fallback"@ <==> decision == Some(
            DaneDecision::WebPkiFallback,
        ),
        decision_text(decision, error) == "no_tlsa"@ <==> decision == Some(DaneDecision::NoTlsa),
{
    reveal_strlit("verified");
    reveal_strlit("webpki_fallback");
    reveal_strlit("no_tlsa");
    reveal_strlit("failed");
    reveal_strlit("not_evaluated");
    reveal_strlit("pass");
    reveal_strlit("webpki_valid");
    reveal_strlit("not_checked");
    reveal_strlit("unknown");
    assert("verified"@.len() == 8 && "webpki_fallback"@.len() == 15 && "no_tlsa"@.len() == 7
        && "failed"@.len() == 6 && "not_evaluated"@.len() == 13);
    assert("pass"@.len() == 4 && "webpki_valid"@.len() == 12 && "not_checked"@.len() == 11
        && "unknown"@.len() == 7);
}

/// An answer has an address exactly where it holds one of either kind.
pub proof fn law_addresses_of_either_kind_count(answer: AnswerView)
    ensures
        has_address(Some(answer)) <==> exists|i: int|
            0 <= i < answer.records.len() && ((#[trigger] answer.records[i]).record_type
                == RecordType::A || answer.records[i].record_type == RecordType::Aaaa),
{
    if exists|i: int|
        0 <= i < answer.records.len() && ((#[trigger] answer.records[i]).record_type
            == RecordType::A || answer.records[i].record_type == RecordType::Aaaa) {
        let i = choose|i: int|
            0 <= i < answer.records.len() && ((#[trigger] answer.records[i]).record_type
                == RecordType::A || answer.records[i].record_type == RecordType::Aaaa);
        assert(is_address(Some(answer)->0.records[i]));
    }
    if has_address(Some(answer)) {
        let i = choose|i: int|
            0 <= i < Some(answer)->0.records.len() && is_address(
                #[trigger] Some(answer)->0.records[i],
            );
        assert(is_address(answer.records[i]));
    }
}

/// The type of every record is listed.
pub proof fn law_every_type_is_listed(records: Seq<RecordView>, i: int)
    requires
        0 <= i < records.len(),
    ensures
        trace::in_order(type_texts(records), records.len()).contains(
            type_text(records[i].record_type),
        ),
{
    trace::law_texts_are_ordered(type_texts(records), records.len());
    let texts = type_texts(records);
    assert(texts.take(records.len() as int)[i] == type_text(records[i].record_type));
}

} // verus!
