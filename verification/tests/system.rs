use hns_browser::dns::{RecordType, ResourceRecord, ServerAddress};
use hns_browser::dnssec::{
    DelegatedChildDnssecNameErrorValidation, DelegatedChildDnssecNoDataValidation,
    DelegatedChildDnssecValidation, DelegatedDnssecNameErrorValidation,
    DelegatedDnssecNoDataValidation, DelegatedDnssecValidation,
};
use hns_browser::error::ResolverError;
use hns_browser::name::DnsName;
use hns_browser::nameserver::{next_dns_query_id, next_doh_query_id, QueryIds};
use hns_browser::system::{
    CheckStep, ClaimKind, QuestionShape, SystemCheck, SystemDnssecVerifier, UdpTcpDnsTransport,
};

fn name(text: &str) -> DnsName {
    DnsName::from_ascii(text).unwrap()
}

fn record(record_type: RecordType) -> ResourceRecord {
    ResourceRecord {
        name: name("welcome"),
        record_type,
        class: 1,
        ttl: 60,
        rdata: vec![1],
        target: None,
    }
}

fn shape(claim: ClaimKind, child: bool, has_nsec: bool, has_nsec3: bool) -> QuestionShape {
    QuestionShape { claim, child, has_nsec, has_nsec3, clock_is_set: true }
}

fn step(shape: QuestionShape, outcomes: &[Option<bool>]) -> CheckStep {
    SystemDnssecVerifier.next_step(shape, &outcomes.to_vec())
}

#[test]
fn questions_have_the_shape_of_their_claim() {
    let owner = name("welcome");
    let child = name("child.welcome");
    let nsec = vec![record(RecordType::Nsec)];
    let none: Vec<ResourceRecord> = Vec::new();
    let positive = DelegatedDnssecValidation {
        dnskey_owner: &owner,
        ds_rrset: &none,
        dnskey_rrset: &none,
        dnskey_rrsig_rrset: &none,
        target_rrset: &none,
        target_rrsig_rrset: &none,
    };
    assert_eq!(positive.shape(true), shape(ClaimKind::Positive, false, false, false));
    let no_data = DelegatedDnssecNoDataValidation {
        dnskey_owner: &owner,
        ds_rrset: &none,
        dnskey_rrset: &none,
        dnskey_rrsig_rrset: &none,
        query_name: &owner,
        query_type: RecordType::A,
        nsec_rrset: &nsec,
        nsec_rrsig_rrset: &none,
        nsec3_rrset: &none,
        nsec3_rrsig_rrset: &none,
    };
    assert_eq!(no_data.shape(true), shape(ClaimKind::NoData, false, true, false));
    let name_error = DelegatedDnssecNameErrorValidation {
        dnskey_owner: &owner,
        ds_rrset: &none,
        dnskey_rrset: &none,
        dnskey_rrsig_rrset: &none,
        query_name: &child,
        closest_encloser: &owner,
        nsec_rrset: &none,
        nsec_rrsig_rrset: &none,
        nsec3_rrset: &nsec,
        nsec3_rrsig_rrset: &none,
    };
    assert_eq!(name_error.shape(true), shape(ClaimKind::NameError, false, false, true));
    assert!(!name_error.shape(false).clock_is_set);
}

#[test]
fn child_questions_have_the_shape_of_their_claim() {
    let owner = name("welcome");
    let child = name("child.welcome");
    let nsec = vec![record(RecordType::Nsec)];
    let none: Vec<ResourceRecord> = Vec::new();
    let positive = DelegatedChildDnssecValidation {
        parent_dnskey_owner: &owner,
        parent_ds_rrset: &none,
        parent_dnskey_rrset: &none,
        parent_dnskey_rrsig_rrset: &none,
        child_dnskey_owner: &child,
        child_ds_rrset: &none,
        child_ds_rrsig_rrset: &none,
        child_dnskey_rrset: &none,
        child_dnskey_rrsig_rrset: &none,
        target_rrset: &none,
        target_rrsig_rrset: &none,
    };
    assert_eq!(positive.shape(true), shape(ClaimKind::Positive, true, false, false));
    let no_data = DelegatedChildDnssecNoDataValidation {
        parent_dnskey_owner: &owner,
        parent_ds_rrset: &none,
        parent_dnskey_rrset: &none,
        parent_dnskey_rrsig_rrset: &none,
        child_dnskey_owner: &child,
        child_ds_rrset: &none,
        child_ds_rrsig_rrset: &none,
        child_dnskey_rrset: &none,
        child_dnskey_rrsig_rrset: &none,
        query_name: &child,
        query_type: RecordType::A,
        nsec_rrset: &nsec,
        nsec_rrsig_rrset: &none,
        nsec3_rrset: &nsec,
        nsec3_rrsig_rrset: &none,
    };
    assert_eq!(no_data.shape(true), shape(ClaimKind::NoData, true, true, true));
    let name_error = DelegatedChildDnssecNameErrorValidation {
        parent_dnskey_owner: &owner,
        parent_ds_rrset: &none,
        parent_dnskey_rrset: &none,
        parent_dnskey_rrsig_rrset: &none,
        child_dnskey_owner: &child,
        child_ds_rrset: &none,
        child_ds_rrsig_rrset: &none,
        child_dnskey_rrset: &none,
        child_dnskey_rrsig_rrset: &none,
        query_name: &child,
        closest_encloser: &owner,
        nsec_rrset: &nsec,
        nsec_rrsig_rrset: &none,
        nsec3_rrset: &none,
        nsec3_rrsig_rrset: &none,
    };
    assert_eq!(name_error.shape(true), shape(ClaimKind::NameError, true, true, false));
}

#[test]
fn target_alone_settles_a_positive_question() {
    let direct = shape(ClaimKind::Positive, false, false, false);
    assert_eq!(step(direct, &[]), CheckStep::Check(SystemCheck::Target));
    assert_eq!(step(direct, &[Some(true)]), CheckStep::Verdict(Ok(true)));
    assert_eq!(step(direct, &[Some(false)]), CheckStep::Verdict(Ok(false)));
    assert_eq!(step(direct, &[None]), CheckStep::Verdict(Err(ResolverError::DnssecFailed)));
    let child = shape(ClaimKind::Positive, true, false, false);
    assert_eq!(step(child, &[]), CheckStep::Check(SystemCheck::ChainTarget));
}

#[test]
fn absence_needs_secure_keys_and_a_denial() {
    let question = shape(ClaimKind::NoData, true, true, true);
    assert_eq!(step(question, &[]), CheckStep::Check(SystemCheck::ZoneKeys));
    assert_eq!(step(question, &[Some(false)]), CheckStep::Verdict(Ok(false)));
    assert_eq!(step(question, &[Some(true)]), CheckStep::Check(SystemCheck::ChildDigests));
    let digests = [Some(true), Some(true)];
    assert_eq!(step(question, &digests), CheckStep::Check(SystemCheck::ChildKeys));
    let keys = [Some(true), Some(true), Some(true)];
    assert_eq!(step(question, &keys), CheckStep::Check(SystemCheck::Nsec));
    let denied = [Some(true), Some(true), Some(true), Some(true)];
    assert_eq!(step(question, &denied), CheckStep::Verdict(Ok(true)));
    let undecided = [Some(true), Some(true), Some(true), Some(false)];
    assert_eq!(step(question, &undecided), CheckStep::Check(SystemCheck::Nsec3));
    let refused = [Some(true), Some(true), Some(true), Some(false), Some(false)];
    assert_eq!(step(question, &refused), CheckStep::Verdict(Ok(false)));
    let bare = shape(ClaimKind::NameError, false, false, false);
    assert_eq!(step(bare, &[Some(true)]), CheckStep::Verdict(Ok(false)));
}

#[test]
fn nothing_is_checked_without_a_clock() {
    let question = QuestionShape {
        claim: ClaimKind::Positive,
        child: false,
        has_nsec: false,
        has_nsec3: false,
        clock_is_set: false,
    };
    assert_eq!(step(question, &[]), CheckStep::Verdict(Err(ResolverError::DnssecFailed)));
}

#[test]
fn messages_are_framed_by_their_length() {
    let transport = UdpTcpDnsTransport::default();
    assert_eq!(transport.timeout_ms, 3000);
    assert_eq!(transport.max_udp_response_len, 1232);
    assert_eq!(transport.max_tcp_message_len, 65_535);
    assert_eq!(transport.tcp_frame(&vec![9, 8, 7]), Ok(vec![0, 3, 9, 8, 7]));
    let frame = transport.tcp_frame(&vec![0; 300]).unwrap();
    assert_eq!(transport.tcp_reply_len(frame[0], frame[1]), Ok(300));
    assert_eq!(transport.tcp_frame(&vec![0; 65_536]), Err(ResolverError::InvalidDnsResponse));
    let narrow = UdpTcpDnsTransport { max_tcp_message_len: 255, ..transport };
    assert_eq!(narrow.tcp_reply_len(0, 255), Ok(255));
    assert_eq!(narrow.tcp_reply_len(1, 0), Err(ResolverError::InvalidDnsResponse));
}

#[test]
fn datagrams_count_only_from_the_server() {
    let transport = UdpTcpDnsTransport::default();
    let server = ServerAddress { ip: vec![192, 0, 2, 1], port: 53 };
    assert_eq!(transport.udp_reply(&server, &vec![192, 0, 2, 1], vec![5]), Ok(vec![5]));
    assert_eq!(
        transport.udp_reply(&server, &vec![192, 0, 2, 2], vec![5]),
        Err(ResolverError::InvalidDnsResponse),
    );
}

#[test]
fn queries_are_numbered_one_after_the_other() {
    let mut ids = QueryIds::for_dns();
    assert_eq!(next_dns_query_id(&mut ids), 0x4d01);
    assert_eq!(next_dns_query_id(&mut ids), 0x4d02);
    let mut ids = QueryIds::for_doh();
    assert_eq!(next_doh_query_id(&mut ids), 0x484f);
    let mut last = QueryIds { last: 0xffff };
    assert_eq!(next_dns_query_id(&mut last), 0);
}
