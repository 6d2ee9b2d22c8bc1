use hns_browser::delegating::DelegatingResolver;
use hns_browser::dns::{DnsMessage, DnsQuestion, RecordType, ResourceRecord, ServerAddress};
use hns_browser::error::ResolverError;
use hns_browser::gateway::errors::{map_gateway_error, GatewayError};
use hns_browser::gateway::fallback::{
    android_gateway_resolver, build_doh_query, doh_answer_from_body, doh_fallback_reason,
    doh_question, doh_request, doh_response_body, fallback_cache_root, FallbackMarker,
    FallbackResolver,
};
use hns_browser::gateway::info::{core_version, diagnostics_json};
use hns_browser::gateway::input::{
    android_authoritative_dns_transport, gateway_request_address, parse_gateway_headers,
    GatewayHttpRequestInput, GatewayResolutionMode,
};
use hns_browser::gateway::json::json_escape;
use hns_browser::gateway::live_proof::{
    anchor_is_recent_canonical, best_synced_header, cached_records, cached_value,
    check_remote_height, needs_live_proof, recent_canonical_resource_anchors, recent_heights,
    select_live_proof_peers, CanonicalChain, LiveProofFetch, PeerRecord,
};
use hns_browser::gateway::local_tls::{
    bundle_of_made, local_tls_certificate_bundle, normalized_local_tls_host, tls_bundle_with,
};
use hns_browser::gateway::proof_details::{hns_proof_details, ChainTip, ResourceCache};
use hns_browser::gateway::resolution_trace::{
    inspection_json, resolution_trace_json, sha256_hex, CertificateDigests, GatewayFault,
    TlsTraceInput,
};
use hns_browser::gateway::respond::{
    origin_response_with_resolver_policy_and_trace,
    plain_response_with_address_and_optional_trace, suppressed_origin_response_header,
    upgrade_response_head_with_resolver_policy_and_trace,
};
use hns_browser::gateway::serve::{
    begin_gateway_request, body_file_error, client_copy_step, gateway_http_response,
    gateway_http_response_body_to_file, gateway_http_upgrade_tunnel, origin_copy_step,
    tunnel_result, BodyFileStep, CopyStep, GatewayOutcome, GatewayReply, ReadEvent,
};
use hns_browser::gateway::status::{
    android_sync_config, best_peer_height, classify_cached_sync_status, classify_sync_status,
    estimated_mainnet_tip_height, NativePeerFailure, NativeSyncStatus,
};
use hns_browser::gateway::sync_run::{
    clear_resolver_cache, read_sync_status, sync_once, sync_status, StatusFacts, StepError,
    SyncReply, SyncRun, SyncStage,
};
use hns_browser::gateway::trace::{
    dns_trace_event, doh_trace_event, DnsTraceEvent, DnsTraceRecorder,
};
use hns_browser::hash::{Hash256, NameHash};
use hns_browser::name::DnsName;
use hns_browser::proven::{
    HnsProofProvider, HnsResourceValueProvider, ProvenNameRecords, ResourcePayload, ResourceValueAnchor,
    VerifiedResourceValue,
};
use hns_browser::resolver::{FailClosedResolver, ResolutionAnswer, ResolutionRequest, Resolver};
use hns_browser::store::{ResourceValueCacheStats, SqliteResourceValueProvider};
use hns_browser::sync::error::SyncError;
use hns_browser::sync::peer::{HeaderPeerFailure, HeaderPeerFailureStage, PeerEvent};
use hns_browser::transport::exchange::OriginTunnel;
use hns_browser::transport::request::build_http_request;
use hns_browser::transport::response::parse_http_response;
use hns_browser::transport::types::{
    DaneDecision, OriginProtocol, OriginResponse, OriginResponseHead, TlsCertificateInspection,
    TlsValidation, TlsaMatching, TlsaRecord, TlsaSelector, TlsaUsage, TransportError,
    TransportLimits, WebPkiStatus,
};
use sha2::{Digest, Sha256};

const DNS_OPT_RECORD_TYPE: u16 = 41;
const DNSSEC_DO_FLAG: u32 = 0x8000;
const LOCAL_TLS_CERT_FINGERPRINT_BYTES: usize = 32;

#[test]
fn version_is_stable() {
    assert_eq!(core_version(), "hns-browser-rust-core/0.2.3");
}

#[test]
fn diagnostics_reports_fail_closed_security() {
    assert!(diagnostics_json().contains(r#""securityDefault":"fail-closed""#));
}

#[test]
fn diagnostics_reports_resource_decoder() {
    assert!(diagnostics_json().contains(r#""hns-resource-decoder""#));
}

#[test]
fn diagnostics_reports_verified_resource_handoff() {
    assert!(diagnostics_json().contains(r#""header-canonical-height-index""#));
    assert!(diagnostics_json().contains(r#""header-mainnet-difficulty-retarget""#));
    assert!(diagnostics_json().contains(r#""urkel-proof-value-handoff""#));
    assert!(diagnostics_json().contains(r#""hns-resource-provider-adapter""#));
    assert!(diagnostics_json().contains(r#""hns-memory-resource-provider""#));
    assert!(diagnostics_json().contains(r#""hns-sqlite-resource-provider""#));
    assert!(diagnostics_json().contains(r#""hns-negative-cache""#));
    assert!(diagnostics_json().contains(r#""hns-ttl-cache-lru""#));
    assert!(diagnostics_json().contains(r#""hns-resource-cache-stats""#));
    assert!(diagnostics_json().contains(r#""hns-resource-cache-eviction""#));
    assert!(diagnostics_json().contains(r#""hns-resource-cache-cap-enforcement""#));
    assert!(diagnostics_json().contains(r#""hns-resource-cache-chain-anchors""#));
    assert!(diagnostics_json().contains(r#""hns-resource-cache-reorg-invalidation""#));
    assert!(diagnostics_json().contains(r#""hns-resource-cache-current-tip""#));
    assert!(diagnostics_json().contains(r#""hns-delegating-resolver-boundary""#));
    assert!(diagnostics_json().contains(r#""hns-name-state-resource-extraction""#));
    assert!(diagnostics_json().contains(r#""hns-proof-backed-ns-address-hydration""#));
    assert!(diagnostics_json().contains(r#""hns-authoritative-dnssec-delegated-resolver""#));
    assert!(diagnostics_json().contains(r#""dnssec-delegated-no-data-validation""#));
    assert!(diagnostics_json().contains(r#""dnssec-delegated-cname-chain""#));
    assert!(diagnostics_json().contains(r#""dnssec-child-referral-validation""#));
    assert!(diagnostics_json().contains(r#""dnssec-child-cname-chain""#));
    assert!(diagnostics_json().contains(r#""dnssec-child-no-data-validation""#));
    assert!(diagnostics_json().contains(r#""gateway-cname-address-routing""#));
    assert!(diagnostics_json().contains(r#""android-actionable-hns-errors""#));
    assert!(diagnostics_json().contains(r#""hns-name-not-found-error""#));
    assert!(diagnostics_json().contains(r#""gateway-hns-address-required""#));
    assert!(diagnostics_json().contains(r#""gateway-tlsa-service-scope""#));
}

#[test]
fn diagnostics_reports_ed25519_dnssec() {
    assert!(diagnostics_json().contains(r#""dnssec-ed25519-verify""#));
}

#[test]
fn diagnostics_reports_sha384_ds_digest() {
    assert!(diagnostics_json().contains(r#""dnssec-ds-sha1""#));
    assert!(diagnostics_json().contains(r#""dnssec-ds-sha384""#));
    assert!(diagnostics_json().contains(r#""dnssec-rsa-sha1-verify""#));
}

#[test]
fn diagnostics_reports_tcp_peer_connection() {
    assert!(diagnostics_json().contains(r#""p2p-tcp-peer-connection""#));
    assert!(diagnostics_json().contains(r#""p2p-static-peer-source""#));
    assert!(diagnostics_json().contains(r#""p2p-dns-seed-source""#));
    assert!(diagnostics_json().contains(r#""p2p-getaddr-peer-discovery""#));
    assert!(diagnostics_json().contains(r#""p2p-discovery-rotation""#));
    assert!(diagnostics_json().contains(r#""p2p-peer-diversity""#));
    assert!(diagnostics_json().contains(r#""p2p-sqlite-peer-store""#));
}

#[test]
fn diagnostics_reports_sync_proof_scheduler() {
    assert!(diagnostics_json().contains(r#""sync-header-runner""#));
    assert!(diagnostics_json().contains(r#""sync-multi-batch-header-runner""#));
    assert!(diagnostics_json().contains(r#""sync-parallel-peer-probing""#));
    assert!(diagnostics_json().contains(r#""sync-ranged-peer-rotation""#));
    assert!(diagnostics_json().contains(r#""sync-proof-scheduler""#));
    assert!(diagnostics_json().contains(r#""android-native-sync-once""#));
    assert!(diagnostics_json().contains(r#""android-sync-status""#));
    assert!(diagnostics_json().contains(r#""android-sync-outcome-status""#));
    assert!(diagnostics_json().contains(r#""android-sync-progress-heights""#));
    assert!(diagnostics_json().contains(r#""android-sync-high-batch-catchup""#));
    assert!(diagnostics_json().contains(r#""android-clear-resolver-cache""#));
    assert!(diagnostics_json().contains(r#""android-persistent-gateway-resolver""#));
    assert!(diagnostics_json().contains(r#""android-gateway-live-proof-fetch""#));
    assert!(diagnostics_json().contains(r#""android-gateway-header-forwarding""#));
    assert!(diagnostics_json().contains(r#""android-gateway-range-forwarding""#));
    assert!(diagnostics_json().contains(r#""android-gateway-body-forwarding""#));
    assert!(diagnostics_json().contains(r#""android-gateway-file-body-stream""#));
    assert!(diagnostics_json().contains(r#""android-webview-hns-intercept""#));
    assert!(diagnostics_json().contains(r#""android-service-worker-hns-intercept""#));
    assert!(diagnostics_json().contains(r#""android-hns-redirect-follow""#));
    assert!(diagnostics_json().contains(r#""android-hns-doh-compat-resolver""#));
    assert!(diagnostics_json().contains(r#""android-random-loopback-proxy-port""#));
}

#[test]
fn diagnostics_reports_websocket_native_tunnel() {
    let diagnostics = diagnostics_json();

    assert!(diagnostics.contains(r#""hns-websocket-native-tunnel""#));
    assert!(diagnostics.contains(r#""http-origin-connection-pooling""#));
    assert!(diagnostics.contains(r#""https-tls-session-resumption""#));
    assert!(diagnostics.contains(r#""https-alt-svc-promotion""#));
}

#[test]
fn diagnostics_reports_origin_transport_framing() {
    assert!(diagnostics_json().contains(r#""http-origin-transport""#));
    assert!(diagnostics_json().contains(r#""http2-origin-transport""#));
    assert!(diagnostics_json().contains(r#""http3-origin-transport""#));
    assert!(diagnostics_json().contains(r#""http-origin-response-framing""#));
    assert!(diagnostics_json().contains(r#""https-rustls-transport""#));
    assert!(diagnostics_json().contains(r#""dane-certificate-chain-policy""#));
    assert!(diagnostics_json().contains(r#""dane-tls-policy""#));
}

#[test]
fn diagnostics_reports_android_connect_certificate_generation() {
    assert!(diagnostics_json().contains(r#""android-local-hns-connect-certs""#));
}

#[test]
fn diagnostics_reports_delegated_gateway_policy() {
    assert!(diagnostics_json().contains(r#""hns-dotted-root-label""#));
    assert!(diagnostics_json().contains(r#""dnssec-delegated-name-error-validation""#));
    assert!(diagnostics_json().contains(r#""dnssec-child-name-error-validation""#));
    assert!(diagnostics_json().contains(r#""dnssec-nxdomain-name-error-validation""#));
    assert!(diagnostics_json().contains(r#""gateway-delegated-origin-address-lookup""#));
    assert!(diagnostics_json().contains(r#""gateway-origin-address-query""#));
    assert!(diagnostics_json().contains(r#""gateway-https-service-query""#));
    assert!(diagnostics_json().contains(r#""gateway-svcb-alpn-policy""#));
    assert!(diagnostics_json().contains(r#""gateway-actionable-nameserver-errors""#));
}

fn parse_local_tls_bundle(bundle: &[u8]) -> (&[u8], &[u8], &[u8]) {
    let cert_len = u32::from_be_bytes(bundle[0..4].try_into().unwrap()) as usize;
    let cert_start = 4;
    let cert_end = cert_start + cert_len;
    let key_len = u32::from_be_bytes(bundle[cert_end..cert_end + 4].try_into().unwrap()) as usize;
    let key_start = cert_end + 4;
    let key_end = key_start + key_len;
    let fingerprint_end = key_end + LOCAL_TLS_CERT_FINGERPRINT_BYTES;
    assert_eq!(fingerprint_end, bundle.len());
    (
        &bundle[cert_start..cert_end],
        &bundle[key_start..key_end],
        &bundle[key_end..fingerprint_end],
    )
}

#[test]
fn local_tls_certificate_bundle_contains_cert_key_and_fingerprint() {
    let bundle = local_tls_certificate_bundle("Welcome.").unwrap();
    let (cert_der, key_der, fingerprint) = parse_local_tls_bundle(&bundle);

    assert!(cert_der.len() > 128);
    assert!(key_der.len() > 64);
    assert_eq!(fingerprint, Sha256::digest(cert_der).as_slice());
    assert!(cert_der.windows(7).any(|window| window == b"welcome"));
}

#[test]
fn local_tls_certificate_bundle_rejects_invalid_hosts() {
    assert!(local_tls_certificate_bundle("").is_none());
    assert!(local_tls_certificate_bundle("127.0.0.1").is_none());
    assert!(local_tls_certificate_bundle("[::1]").is_none());
    assert!(local_tls_certificate_bundle("-bad").is_none());
    assert!(local_tls_certificate_bundle("bad_label").is_none());
}

#[test]
fn hosts_of_certificates_are_normalized() {
    assert_eq!(normalized_local_tls_host(" WWW.Welcome.. "), Some("www.welcome".to_owned()));
    assert_eq!(normalized_local_tls_host("256.0.0.1"), Some("256.0.0.1".to_owned()));
    assert_eq!(normalized_local_tls_host("a..b"), None);
    assert_eq!(normalized_local_tls_host("bad-"), None);
    assert_eq!(normalized_local_tls_host(&"a".repeat(64)), None);
    assert_eq!(normalized_local_tls_host(&"a.".repeat(127)), Some("a.".repeat(126) + "a"));
    assert_eq!(normalized_local_tls_host(&"aa.".repeat(90)), None);
}

/// Answers each step of a round as a device without a network would.
fn run_offline(
    resources: Option<&mut SqliteResourceValueProvider>,
    best: Option<u32>,
    roots: &[Hash256],
    limit: usize,
) -> SyncRun {
    let mut resources = resources;
    let mut run = SyncRun::new(false);
    let mut anchors: Vec<ResourceValueAnchor> = Vec::new();
    let mut best_height = best;
    while !run.is_ended() {
        let reply = match run.stage {
            SyncStage::CreateDirectory
            | SyncStage::OpenHeaderStore
            | SyncStage::OpenPeerStore
            | SyncStage::SaveSeededPeers => SyncReply::Done,
            SyncStage::ReadBest => SyncReply::Best { height: best_height },
            SyncStage::InsertGenesis => {
                best_height = Some(0);
                SyncReply::Done
            }
            SyncStage::LoadPeers => SyncReply::PeerCount { count: 0 },
            SyncStage::SyncHeaders => SyncReply::Headers {
                attempted: 0,
                successful: 0,
                accepted: 0,
                failures: Vec::new(),
            },
            SyncStage::ReadSyncedBest => SyncReply::Table {
                best_height,
                peers: Vec::new(),
                peer_groups: 0,
                now: 1_580_745_078,
            },
            SyncStage::OpenCacheToPrune
            | SyncStage::OpenCacheToLimit
            | SyncStage::OpenCacheToCount => {
                if resources.is_some() {
                    SyncReply::Done
                } else {
                    SyncReply::NoCache
                }
            }
            SyncStage::ReadAnchors => {
                if let Some((first, last)) = recent_heights(best_height) {
                    let known: Vec<Option<Hash256>> = (first..=last)
                        .map(|height| roots.get(height as usize - 1).copied())
                        .collect();
                    anchors = recent_canonical_resource_anchors(first, &known);
                }
                SyncReply::Done
            }
            SyncStage::PruneAnchors => SyncReply::Removed {
                count: resources.as_mut().unwrap().prune_invalid_anchors(&anchors, true),
            },
            SyncStage::EnforceLimit => SyncReply::Removed {
                count: resources.as_mut().unwrap().enforce_value_byte_limit(limit).unwrap(),
            },
            SyncStage::ReadStats => {
                let stats = resources.as_ref().unwrap().stats().unwrap();
                SyncReply::Stats { entries: stats.entries, value_bytes: stats.value_bytes }
            }
            other => panic!("unexpected stage: {other:?}"),
        };
        run.on_reply(reply);
    }
    run
}

#[test]
fn sync_once_initializes_persistent_stores_without_seed_network() {
    let run = run_offline(None, None, &[], 52_428_800);
    let status = &run.status;

    assert_eq!(status.status, "idle");
    assert_eq!(status.attempted, 0);
    assert_eq!(status.successful, 0);
    assert_eq!(status.accepted, 0);
    assert_eq!(status.failed, 0);
    assert!(status.failures.is_empty());
    assert_eq!(status.peer_count, 0);
    assert_eq!(status.peer_groups, 0);
    assert_eq!(status.best_height, Some(0));
    assert_eq!(status.best_peer_height, None);
    assert_eq!(status.resource_cache_entries, 0);
    assert_eq!(status.resource_cache_bytes, 0);
    assert_eq!(status.resource_cache_evicted, 0);
    assert_eq!(sync_once(&run), status.to_json());

    let json = sync_status(&Ok(StatusFacts {
        best_height: Some(0),
        peers: Vec::new(),
        peer_groups: 0,
        now: 1_580_745_078,
        stats: None,
    }));
    assert!(json.contains(r#""status":"idle""#));
    assert!(json.contains(r#""failed":0"#));
    assert!(json.contains(r#""failures":[]"#));
    assert!(json.contains(r#""peerCount":0"#));
    assert!(json.contains(r#""peerGroups":0"#));
    assert!(json.contains(r#""bestHeight":0"#));
    assert!(json.contains(r#""resourceCacheEntries":0"#));
    assert!(json.contains(r#""resourceCacheBytes":0"#));
    assert!(json.contains(r#""resourceCacheEvicted":0"#));
}

#[test]
fn cached_sync_status_classifier_reports_up_to_date_without_network() {
    assert_eq!(classify_cached_sync_status(Some(335_591), Some(335_591)), "up_to_date");
    assert_eq!(classify_cached_sync_status(Some(335_591), Some(335_590)), "up_to_date");
    assert_eq!(classify_cached_sync_status(Some(335_590), Some(335_591)), "syncing");
    assert_eq!(classify_cached_sync_status(Some(0), Some(0)), "idle");
    assert_eq!(classify_cached_sync_status(Some(10), None), "syncing");
}

fn peer(last: u8, score: i64, last_height: u32, banned: bool) -> PeerRecord {
    PeerRecord {
        address: ServerAddress { ip: vec![127, 0, 0, last], port: 12038 },
        score,
        last_height,
        banned,
    }
}

#[test]
fn live_proof_peer_selection_ignores_zero_height_failed_peers() {
    let stale = peer(2, -32, 0, false);
    let current = peer(3, 1, 336_034, false);

    let selected = select_live_proof_peers(&vec![stale, current.clone()], 8, 336_034);

    assert_eq!(selected, vec![current.address]);
}

#[test]
fn live_proof_peers_are_asked_in_order() {
    let peers = vec![
        peer(9, 0, 10, false),
        peer(8, 0, 10, false),
        peer(7, 0, 12, false),
        peer(6, -1, 9, false),
        peer(5, -2, 99, true),
        peer(4, -2, 8, false),
    ];

    let selected = select_live_proof_peers(&peers, 3, 9);

    assert_eq!(
        selected.iter().map(|address| address.ip[3]).collect::<Vec<_>>(),
        vec![6, 7, 8],
    );
}

fn tip(height: u32) -> ChainTip {
    ChainTip { height, tree_root: Hash256::new([5; 32]) }
}

#[test]
fn live_proof_attempts_are_noted() {
    let peers = vec![peer(3, 0, 12, false), peer(4, 1, 12, false), peer(5, 2, 12, false)];
    let mut fetch = LiveProofFetch::new(&peers, 8, &tip(12));
    assert_eq!(fetch.next_peer(), Some(&peers[0].address));

    let refused = check_remote_height(11, 12).map(|_| 11);
    assert_eq!(refused, Err(SyncError::UnexpectedAction));
    assert_eq!(
        fetch.on_outcome(7, &refused),
        Some(PeerEvent::TransientFailure { address: peers[0].address.clone() }),
    );
    assert_eq!(fetch.result(), None);
    assert_eq!(fetch.next_peer(), Some(&peers[1].address));
    assert_eq!(
        fetch.on_outcome(7, &Ok(12)),
        Some(PeerEvent::Success { address: peers[1].address.clone(), height: 12, now: 7 }),
    );
    assert_eq!(fetch.result(), Some(Ok(())));
    assert_eq!(fetch.next_peer(), None);
    assert_eq!(fetch.on_outcome(7, &refused), None);
    assert_eq!(fetch.asked, 2);
    assert_eq!(check_remote_height(12, 12), Ok(()));
}

#[test]
fn live_proof_fetch_gives_up_without_peers() {
    let mut fetch = LiveProofFetch::new(&vec![peer(3, 0, 12, false)], 8, &tip(12));
    fetch.on_outcome(7, &Err(SyncError::UnverifiedProof));
    assert_eq!(fetch.result(), Some(Err(ResolverError::ProofUnavailable)));
    assert_eq!(
        LiveProofFetch::new(&Vec::new(), 8, &tip(12)).result(),
        Some(Err(ResolverError::ProofUnavailable)),
    );
}

#[test]
fn proofs_need_more_than_the_first_block() {
    assert_eq!(best_synced_header(Some(tip(1))), Ok(tip(1)));
    assert_eq!(best_synced_header(None), Err(ResolverError::ProofUnavailable));
    assert_eq!(
        best_synced_header(Some(tip(0))),
        Err(ResolverError::ProofUnavailable),
    );
}

#[test]
fn sync_status_json_reports_peer_failures() {
    let status = NativeSyncStatus {
        status: "peer_failed",
        attempted: 1,
        successful: 0,
        accepted: 0,
        failed: 1,
        peer_count: 1,
        peer_groups: 1,
        best_height: Some(0),
        best_peer_height: None,
        estimated_tip_height: Some(335_684),
        resource_cache_entries: 0,
        resource_cache_bytes: 0,
        resource_cache_evicted: 0,
        error: Some("all 1 attempted sync peers failed; see failures".to_owned()),
        failures: vec![NativePeerFailure {
            address: "127.0.0.1:12038".to_owned(),
            stage: "connect",
            error: "connection \"closed\"\n".to_owned(),
        }],
    };

    let json = status.to_json();

    assert!(json.contains(r#""status":"peer_failed""#));
    assert!(json.contains(r#""failed":1"#));
    assert!(json.contains(r#""estimatedTipHeight":335684"#));
    assert!(json.contains(r#""error":"all 1 attempted sync peers failed; see failures""#));
    assert!(json.contains(
        r#""failures":[{"address":"127.0.0.1:12038","stage":"connect","error":"connection \"closed\"\n"}]"#,
    ));
}

#[test]
fn sync_status_json_is_whole() {
    let status = NativeSyncStatus {
        failures: vec![
            NativePeerFailure::new(
                "a".to_owned(),
                HeaderPeerFailure {
                    address: peer(1, 0, 0, false).address,
                    stage: HeaderPeerFailureStage::Handshake,
                    error: "late".to_owned(),
                },
            ),
            NativePeerFailure {
                address: "b".to_owned(),
                stage: HeaderPeerFailureStage::Chain.as_str(),
                error: "bad".to_owned(),
            },
        ],
        best_peer_height: Some(7),
        ..NativeSyncStatus::empty()
    };
    assert_eq!(
        status.to_json(),
        r#"{"status":"idle","attempted":0,"successful":0,"accepted":0,"failed":0,"peerCount":0,"peerGroups":0,"bestHeight":null,"bestPeerHeight":7,"estimatedTipHeight":null,"resourceCacheEntries":0,"resourceCacheBytes":0,"resourceCacheEvicted":0,"error":null,"failures":[{"address":"a","stage":"handshake","error":"late"},{"address":"b","stage":"chain","error":"bad"}]}"#,
    );
}

#[test]
fn sync_status_classifier_reports_up_to_date_and_peer_failed() {
    assert_eq!(
        classify_sync_status(4, 1, 0, 3, false, Some(335_591), Some(335_591)),
        "up_to_date",
    );
    assert_eq!(
        classify_sync_status(4, 1, 2, 3, false, Some(335_591), Some(335_591)),
        "synced",
    );
    assert_eq!(
        classify_sync_status(4, 1, 2, 3, false, Some(45_000), Some(335_684)),
        "syncing",
    );
    assert_eq!(classify_sync_status(4, 1, 2, 3, false, Some(92_000), None), "syncing");
    assert_eq!(
        classify_sync_status(4, 1, 0, 3, false, Some(93_344), Some(335_684)),
        "syncing",
    );
    assert_eq!(
        classify_sync_status(4, 0, 0, 4, false, Some(0), Some(335_684)),
        "peer_failed",
    );
    assert_eq!(
        classify_sync_status(4, 0, 0, 2, false, Some(0), Some(335_684)),
        "attempted",
    );
    assert_eq!(classify_sync_status(0, 0, 0, 0, true, None, None), "seed_failed");
    assert_eq!(classify_sync_status(0, 0, 0, 0, false, None, None), "idle");
}

fn name_hash(text: &str) -> NameHash {
    NameHash::from_name(text).unwrap()
}

fn opaque_value(bytes: Vec<u8>) -> ResourcePayload {
    ResourcePayload { bytes, decoded: Err("malformed".to_owned()) }
}

fn anchored(root: &str, bytes: Vec<u8>, tree_root: Hash256, height: u32) -> VerifiedResourceValue {
    VerifiedResourceValue::inclusion(root.to_owned(), name_hash(root), opaque_value(bytes))
        .with_anchor(tree_root, height)
}

#[test]
fn sync_once_enforces_resource_cache_limit_and_clear_removes_cache() {
    let anchor_root = Hash256::new([3; 32]);
    let mut resources = SqliteResourceValueProvider::from_rows(Vec::new());
    resources
        .insert(anchored("alpha", vec![1, 2, 3, 4, 5, 6], anchor_root, 1), 1_000)
        .unwrap();
    resources.insert(anchored("beta", vec![7, 8], anchor_root, 1), 1_000).unwrap();

    let status = run_offline(Some(&mut resources), Some(1), &[anchor_root], 2).status;

    assert_eq!(status.resource_cache_evicted, 1);
    assert_eq!(status.resource_cache_entries, 1);
    assert_eq!(status.resource_cache_bytes, 2);

    resources.clear();
    let clear_json = clear_resolver_cache(
        &Ok(()),
        &Ok(StatusFacts {
            best_height: Some(1),
            peers: Vec::new(),
            peer_groups: 0,
            now: 1_580_745_078,
            stats: Some(resources.stats().unwrap()),
        }),
    );
    assert!(clear_json.contains(r#""status":"cleared""#));
    assert!(clear_json.contains(r#""resourceCacheEntries":0"#));
    assert!(clear_json.contains(r#""resourceCacheBytes":0"#));
}

#[test]
fn sync_once_prunes_resource_cache_entries_not_on_best_chain() {
    let mut resources = SqliteResourceValueProvider::from_rows(Vec::new());
    resources.insert(anchored("alpha", vec![1, 2], Hash256::new([9; 32]), 0), 1_000).unwrap();

    let status = run_offline(Some(&mut resources), None, &[], 52_428_800).status;

    assert_eq!(status.resource_cache_evicted, 1);
    assert_eq!(status.resource_cache_entries, 0);
    assert_eq!(status.resource_cache_bytes, 0);
}

#[test]
fn sync_once_keeps_resource_cache_entries_on_recent_canonical_chain() {
    let older_root = Hash256::new([3; 32]);
    let current_root = Hash256::new([4; 32]);
    let mut resources = SqliteResourceValueProvider::from_rows(Vec::new());
    resources.insert(anchored("alpha", vec![1, 2], older_root, 1), 1_000).unwrap();
    resources.insert(anchored("beta", vec![3], current_root, 2), 1_000).unwrap();

    let status =
        run_offline(Some(&mut resources), Some(2), &[older_root, current_root], 52_428_800).status;

    assert_eq!(status.resource_cache_evicted, 0);
    assert_eq!(status.resource_cache_entries, 2);
    assert_eq!(status.resource_cache_bytes, 3);
}

#[test]
fn sync_once_prunes_resource_cache_entries_not_on_recent_canonical_chain() {
    let current_root = Hash256::new([4; 32]);
    let mut resources = SqliteResourceValueProvider::from_rows(Vec::new());
    resources.insert(anchored("alpha", vec![1, 2], Hash256::new([0; 32]), 0), 1_000).unwrap();
    resources.insert(anchored("beta", vec![3], current_root, 1), 1_000).unwrap();

    let status = run_offline(Some(&mut resources), Some(1), &[current_root], 52_428_800).status;

    assert_eq!(status.resource_cache_evicted, 1);
    assert_eq!(status.resource_cache_entries, 1);
    assert_eq!(status.resource_cache_bytes, 1);
}

#[test]
fn failed_steps_end_a_round() {
    for (stage, prefix) in [
        (SyncStage::CreateDirectory, "create sync directory: "),
        (SyncStage::OpenHeaderStore, "open header store: "),
        (SyncStage::ReadBest, "read best header: "),
        (SyncStage::InsertGenesis, "insert genesis header: "),
        (SyncStage::OpenPeerStore, "open peer store: "),
        (SyncStage::LoadPeers, "load peer store: "),
        (SyncStage::SaveSeededPeers, "save seeded peers: "),
        (SyncStage::SyncHeaders, "sync headers: "),
        (SyncStage::ReadSyncedBest, "read synced best header: "),
        (SyncStage::OpenCacheToPrune, "open resource cache: "),
        (SyncStage::ReadAnchors, "read best header for resource cache anchors: "),
        (SyncStage::PruneAnchors, "prune resource cache anchors: "),
        (SyncStage::OpenCacheToLimit, "open resource cache: "),
        (SyncStage::EnforceLimit, "enforce resource cache limit: "),
        (SyncStage::OpenCacheToCount, "open resource cache: "),
        (SyncStage::ReadStats, "read resource cache stats: "),
    ] {
        let mut run = SyncRun::new(true);
        run.stage = stage;
        run.on_reply(SyncReply::Failed { error: "disk full".to_owned() });
        assert!(run.is_ended());
        assert_eq!(run.status.status, "error");
        assert_eq!(run.status.error, Some(format!("{prefix}disk full")));
    }
}

#[test]
fn failed_search_for_peers_is_told_only_where_none_were_known() {
    for (count, told) in [(0, Some("no seeds".to_owned())), (3, None)] {
        let mut run = SyncRun::new(true);
        run.stage = SyncStage::LoadPeers;
        run.on_reply(SyncReply::PeerCount { count });
        assert_eq!(run.stage, SyncStage::SeedPeers);
        run.on_reply(SyncReply::Failed { error: "no seeds".to_owned() });
        assert_eq!(run.stage, SyncStage::SyncHeaders);
        assert_eq!(run.seed_error, told);
    }
    let mut run = SyncRun::new(true);
    run.stage = SyncStage::LoadPeers;
    run.on_reply(SyncReply::PeerCount { count: 64 });
    assert_eq!(run.stage, SyncStage::SyncHeaders);
    let mut run = SyncRun::new(true);
    run.stage = SyncStage::SeedPeers;
    run.on_reply(SyncReply::Seeded { inserted: 1 });
    assert_eq!(run.stage, SyncStage::SaveSeededPeers);
    run.on_reply(SyncReply::NoCache);
    assert_eq!(run.stage, SyncStage::SaveSeededPeers);
}

#[test]
fn round_in_which_every_peer_failed_says_so() {
    let mut run = SyncRun::new(false);
    run.stage = SyncStage::SyncHeaders;
    run.on_reply(SyncReply::Headers {
        attempted: 1,
        successful: 0,
        accepted: 0,
        failures: vec![NativePeerFailure {
            address: "127.0.0.1:12038".to_owned(),
            stage: "connect",
            error: "refused".to_owned(),
        }],
    });
    run.on_reply(SyncReply::Table {
        best_height: Some(3),
        peers: vec![peer(1, 0, 9, false), peer(2, 0, 0, false)],
        peer_groups: 1,
        now: 1_580_745_078 + 1_200,
    });
    run.on_reply(SyncReply::NoCache);
    run.on_reply(SyncReply::NoCache);
    run.on_reply(SyncReply::NoCache);
    assert!(run.is_ended());
    assert_eq!(run.status.status, "peer_failed");
    assert_eq!(run.status.failed, 1);
    assert_eq!(run.status.peer_count, 2);
    assert_eq!(run.status.best_peer_height, Some(9));
    assert_eq!(run.status.estimated_tip_height, Some(2));
    assert_eq!(
        run.status.error,
        Some("all 1 attempted sync peers failed; see failures".to_owned()),
    );
}

/// The name of a round in which one peer was reached and `accepted` headers came,
/// with the best header at `best`, the best peer at `peer_height` and the
/// estimated tip at `estimated`.
fn round_name(accepted: usize, best: u32, peer_height: u32, estimated: u64) -> &'static str {
    let mut run = SyncRun::new(false);
    run.stage = SyncStage::SyncHeaders;
    run.on_reply(SyncReply::Headers {
        attempted: 1,
        successful: 1,
        accepted,
        failures: Vec::new(),
    });
    run.on_reply(SyncReply::Table {
        best_height: Some(best),
        peers: vec![peer(1, 0, peer_height, false)],
        peer_groups: 1,
        now: 1_580_745_078 + estimated * 600,
    });
    run.on_reply(SyncReply::NoCache);
    run.on_reply(SyncReply::NoCache);
    run.on_reply(SyncReply::NoCache);
    assert!(run.is_ended());
    assert_eq!(run.status.error, None);
    run.status.status
}

#[test]
fn round_stays_syncing_while_a_target_is_ahead() {
    assert_eq!(round_name(5, 10, 10, 10), "synced");
    assert_eq!(round_name(0, 10, 10, 10), "up_to_date");
    assert_eq!(round_name(5, 10, 11, 10), "syncing");
    assert_eq!(round_name(0, 10, 11, 10), "syncing");
    assert_eq!(round_name(5, 10, 10, 11), "syncing");
    assert_eq!(round_name(0, 10, 9, 11), "syncing");
}

#[test]
fn status_tells_of_what_cannot_be_read() {
    let failed = || StepError { stage: SyncStage::ClearCache, error: "locked".to_owned() };
    assert_eq!(
        sync_status(&Err(failed())),
        NativeSyncStatus::error("clear resource cache: locked".to_owned()).to_json(),
    );
    assert_eq!(
        clear_resolver_cache(&Err(failed()), &Err(failed())),
        NativeSyncStatus::error("clear resource cache: locked".to_owned()).to_json(),
    );
    assert_eq!(
        clear_resolver_cache(&Ok(()), &Err(failed())),
        NativeSyncStatus { status: "cleared", ..NativeSyncStatus::empty() }.to_json(),
    );
    let known = read_sync_status(&StatusFacts {
        best_height: Some(5),
        peers: vec![peer(1, 0, 4, false)],
        peer_groups: 1,
        now: 0,
        stats: Some(ResourceValueCacheStats { entries: 2, value_bytes: 30 }),
    });
    assert_eq!(known.status, "up_to_date");
    assert_eq!(known.estimated_tip_height, None);
    assert_eq!((known.resource_cache_entries, known.resource_cache_bytes), (2, 30));
}

#[test]
fn heights_are_estimated_and_compared() {
    assert_eq!(estimated_mainnet_tip_height(1_580_745_077), None);
    assert_eq!(estimated_mainnet_tip_height(1_580_745_078), Some(0));
    assert_eq!(estimated_mainnet_tip_height(1_580_745_078 + 335_684 * 600 + 599), Some(335_684));
    assert_eq!(estimated_mainnet_tip_height(u64::MAX), None);
    assert_eq!(best_peer_height(&Vec::new()), None);
    assert_eq!(
        best_peer_height(&vec![peer(1, 0, 3, false), peer(2, 0, 8, true), peer(3, 0, 5, false)]),
        Some(8),
    );
    let config = android_sync_config(3_000);
    assert_eq!((config.preferred_peers, config.max_header_batches_per_peer), (12, 192));
    assert_eq!(config.timeout_ms, 3_000);
}

#[test]
fn anchors_count_while_they_are_recent() {
    let root = Hash256::new([5; 32]);
    let anchor = |height| ResourceValueAnchor { tree_root: root, height };
    let chain = CanonicalChain {
        best_height: Some(200),
        roots: vec![anchor(55), anchor(56), anchor(200), anchor(0), anchor(201)],
    };
    assert!(anchor_is_recent_canonical(Some(anchor(200)), &chain));
    assert!(anchor_is_recent_canonical(Some(anchor(56)), &chain));
    assert!(!anchor_is_recent_canonical(Some(anchor(55)), &chain));
    assert!(!anchor_is_recent_canonical(Some(anchor(201)), &chain));
    assert!(!anchor_is_recent_canonical(Some(anchor(0)), &chain));
    assert!(!anchor_is_recent_canonical(Some(anchor(100)), &chain));
    assert!(!anchor_is_recent_canonical(None, &chain));
    let unknown = CanonicalChain { best_height: None, ..chain };
    assert!(!anchor_is_recent_canonical(Some(anchor(200)), &unknown));

    assert_eq!(recent_heights(None), None);
    assert_eq!(recent_heights(Some(0)), None);
    assert_eq!(recent_heights(Some(145)), Some((1, 145)));
    assert_eq!(recent_heights(Some(200)), Some((56, 200)));
    assert_eq!(
        recent_canonical_resource_anchors(56, &vec![Some(root), None, Some(root)]),
        vec![anchor(56), anchor(58)],
    );
}

fn name(text: &str) -> DnsName {
    DnsName::from_ascii(text).unwrap()
}

fn address_record(owner: &str, address: [u8; 4]) -> ResourceRecord {
    ResourceRecord {
        name: name(owner),
        record_type: RecordType::A,
        class: 1,
        ttl: 20,
        rdata: address.to_vec(),
        target: None,
    }
}

fn name_wire(text: &str) -> Vec<u8> {
    let mut out = Vec::new();
    for label in text.split('.') {
        out.push(label.len() as u8);
        out.extend(label.as_bytes());
    }
    out.push(0);
    out
}

fn owner_glue4_resource(owner: &str, address: [u8; 4]) -> ResourcePayload {
    let mut bytes = vec![0, 2];
    bytes.extend(name_wire(owner));
    bytes.extend(address);
    ResourcePayload {
        bytes,
        decoded: Ok(vec![
            ResourceRecord {
                record_type: RecordType::Ns,
                rdata: name_wire(owner),
                target: Some(name(owner)),
                ..address_record(owner, address)
            },
            address_record(owner, address),
        ]),
    }
}

fn hex_lower(bytes: &[u8]) -> String {
    bytes.iter().map(|byte| format!("{byte:02x}")).collect()
}

#[test]
fn hns_proof_details_reports_cached_resource_anchor_and_records() {
    let anchor_root = Hash256::new([8; 32]);
    let resource = owner_glue4_resource("welcome", [127, 0, 0, 1]);
    let mut resources = SqliteResourceValueProvider::from_rows(Vec::new());
    resources
        .insert(
            VerifiedResourceValue::inclusion(
                "welcome".to_owned(),
                name_hash("welcome"),
                resource.copy(),
            )
            .with_anchor(anchor_root, 1),
            1_000,
        )
        .unwrap();

    let json = hns_proof_details(
        "www.welcome/",
        ResourceCache::Open(resources),
        Some(ChainTip { height: 1, tree_root: anchor_root }),
    );

    assert!(json.contains(r#""host":"www.welcome""#));
    assert!(json.contains(r#""name":"welcome""#));
    assert!(json.contains(&format!(
        r#""nameHash":"{}""#,
        hex_lower(&name_hash("welcome").as_hash().bytes)
    )));
    assert!(json.contains(r#""proofStatus":"verified""#));
    assert!(json.contains(r#""cacheStatus":"anchored_to_current_tip""#));
    assert!(json.contains(&format!(r#""treeRoot":"{}""#, hex_lower(&anchor_root.bytes))));
    assert!(json.contains(r#""blockHeight":1"#));
    assert!(json.contains(&format!(r#""resourceValueHex":"{}""#, hex_lower(&resource.bytes))));
    assert!(json.contains(r#""recordTypes":["A","NS"]"#));
    assert!(json.contains(r#""type":"NS""#));
    assert!(json.contains(r#""type":"A""#));
    assert!(json.contains(r#""currentTip":{"height":1"#));
}

#[test]
fn row_that_cannot_be_read_is_told() {
    let json = hns_proof_details(
        "welcome",
        ResourceCache::ReadFailed(ResolverError::Storage("malformed column".to_owned())),
        None,
    );

    assert!(json.contains(r#""proofStatus":"error""#));
    assert!(json.contains(r#""cacheStatus":"proof_read_failed""#));
    assert!(json.contains("malformed column"));
}

#[test]
fn hns_proof_details_reports_missing_resource_cache() {
    let json = hns_proof_details("missing", ResourceCache::Missing, None);

    assert!(json.contains(r#""host":"missing""#));
    assert!(json.contains(r#""name":"missing""#));
    assert!(json.contains(r#""proofStatus":"unavailable""#));
    assert!(json.contains(r#""cacheStatus":"resource_cache_missing""#));
    assert!(json.contains(r#""resourceValueHex":null"#));
    assert!(json.contains(r#""error":"resource cache is not initialized""#));
}

#[test]
fn sync_status_json_escapes_errors() {
    let json = NativeSyncStatus::error("bad \"path\"\n".to_owned()).to_json();

    assert!(json.contains(r#""status":"error""#));
    assert!(json.contains(r#""error":"bad \"path\"\n""#));
}

#[test]
fn escaped_text_stays_in_its_string() {
    assert_eq!(json_escape("a\"b\\c\n\r\t\u{1}\u{7f}\u{e9}"), "a\\\"b\\\\c\\n\\r\\t\\u0001\\u007f\u{e9}");
}

const PLAIN_TRACE: &str = r#"{"mode":"compatibility","fallback":{"used":false}}"#;

fn origin(headers: Vec<(&str, &str)>, dane_decision: DaneDecision) -> OriginResponse {
    OriginResponse {
        status: 200,
        headers: headers
            .into_iter()
            .map(|(name, value)| (name.to_owned(), value.to_owned()))
            .collect(),
        body: b"ok".to_vec(),
        dane_decision,
        tls_inspection: None,
    }
}

#[test]
fn origin_response_suppresses_spoofed_hns_tls_policy_origin_headers() {
    let response = origin_response_with_resolver_policy_and_trace(
        origin(vec![("X-HNS-TLS-Policy", "origin")], DaneDecision::WebPkiFallback),
        None,
        PLAIN_TRACE,
    );
    let text = String::from_utf8(response).unwrap();

    assert!(!text.contains("X-HNS-TLS-Policy: origin\r\n"));
    assert!(text.contains("X-HNS-TLS-Policy: webpki-fallback\r\n"));
}

#[test]
fn origin_response_reports_hns_resolver_policy_after_tls_policy() {
    let response = origin_response_with_resolver_policy_and_trace(
        origin(Vec::new(), DaneDecision::Matched(TlsaUsage::DaneEe)),
        Some("hns-doh-compat"),
        PLAIN_TRACE,
    );
    let text = String::from_utf8(response).unwrap();

    assert!(text.contains("X-HNS-TLS-Policy: dane\r\nX-HNS-Resolver-Policy: hns-doh-compat\r\n"));
}

#[test]
fn origin_response_is_framed_anew() {
    let response = origin_response_with_resolver_policy_and_trace(
        origin(
            vec![
                ("Transfer-Encoding", "chunked"),
                ("Content-Length", "99"),
                ("connection", "keep-alive"),
                ("Trailer", "X"),
                ("Server", "here"),
            ],
            DaneDecision::Failed,
        ),
        None,
        PLAIN_TRACE,
    );
    assert_eq!(
        String::from_utf8(response).unwrap(),
        format!(
            "HTTP/1.1 200 OK\r\nConnection: close\r\nContent-Length: 2\r\nServer: here\r\nX-HNS-TLS-Policy: failed\r\nX-HNS-Resolver-Mode: compatibility\r\nX-HNS-DoH-Fallback: no\r\nX-HNS-Resolution-Trace: {PLAIN_TRACE}\r\n\r\nok"
        ),
    );
    assert!(suppressed_origin_response_header("x-hns-doh-fallback"));
    assert!(!suppressed_origin_response_header("Server"));
}

#[test]
fn gateway_headers_strip_internal_strict_mode_control_header() {
    let parsed =
        parse_gateway_headers("Accept: text/html\r\nX-HNS-Browser-Strict-Mode: 1\r\n").unwrap();

    assert!(parsed.strict_hns_mode);
    assert_eq!(parsed.headers, vec![("Accept".to_owned(), "text/html".to_owned())]);
}

#[test]
fn gateway_headers_are_refused_with_reasons() {
    assert_eq!(
        parse_gateway_headers(&"a".repeat(65_537)).unwrap_err(),
        "request headers are too large",
    );
    assert_eq!(parse_gateway_headers("nothing").unwrap_err(), "request header is malformed");
    assert_eq!(parse_gateway_headers("a b: c").unwrap_err(), "request header is invalid");
    assert_eq!(parse_gateway_headers(": c").unwrap_err(), "request header is invalid");
    assert_eq!(parse_gateway_headers("a: b\nc: d").unwrap_err(), "request header is invalid");
    let parsed =
        parse_gateway_headers("A: b: c\r\n\r\nX-HNS-Browser-Strict-Mode: FALSE").unwrap();
    assert!(!parsed.strict_hns_mode);
    assert_eq!(parsed.headers, vec![("A".to_owned(), "b: c".to_owned())]);
}

#[test]
fn origin_response_includes_resolution_trace_headers() {
    let response = origin_response_with_resolver_policy_and_trace(
        origin(Vec::new(), DaneDecision::NoTlsa),
        None,
        r#"{"mode":"strict","fallback":{"used":false}}"#,
    );
    let text = String::from_utf8(response).unwrap();

    assert!(text.contains("X-HNS-Resolver-Mode: strict\r\n"));
    assert!(text.contains("X-HNS-DoH-Fallback: no\r\n"));
    assert!(text.contains(
        "X-HNS-Resolution-Trace: {\"mode\":\"strict\",\"fallback\":{\"used\":false}}\r\n",
    ));
}

fn input<'a>(scheme: &'a str, host: &'a str, port: u16, body: &'a Vec<u8>) -> GatewayHttpRequestInput<'a> {
    GatewayHttpRequestInput {
        data_dir: "/tmp",
        method: "GET",
        scheme,
        host,
        port,
        path_and_query: "/",
        header_text: "",
        body,
    }
}

fn no_tls<'a>() -> TlsTraceInput<'a> {
    TlsTraceInput { validation: None, decision: None, inspection: None }
}

#[test]
fn resolution_trace_reports_authoritative_dns_attempts() {
    let mut dns_trace = DnsTraceRecorder::new();
    dns_trace.push(DnsTraceEvent {
        protocol: "udp53",
        server: "192.0.2.53:53".to_owned(),
        status: "timeout".to_owned(),
        elapsed_ms: 901,
        error: Some("operation timed out".to_owned()),
    });
    dns_trace.push(DnsTraceEvent {
        protocol: "tcp53",
        server: "192.0.2.53:53".to_owned(),
        status: "transport_error".to_owned(),
        elapsed_ms: 12,
        error: Some("connection refused".to_owned()),
    });
    let body = Vec::new();
    let error = ResolverError::DnsTransport("operation timed out".to_owned());
    let message = error.message();
    let trace = resolution_trace_json(
        &input("https", "nathan.woodburn", 443, &body),
        GatewayResolutionMode::Strict,
        None,
        no_tls(),
        Some(&GatewayFault { error: GatewayError::Resolver(error), message }),
        &FallbackMarker::new(),
        &dns_trace.events,
    );

    assert!(trace.contains(r#""authoritativeDns":{"udp53":"timeout","tcp53":"transport_error"}"#));
    assert!(trace.contains(r#""nameserverCandidates":["192.0.2.53:53"]"#));
    assert!(trace.contains(r#""protocol":"udp53","server":"192.0.2.53:53","status":"timeout""#));
    assert!(trace.contains(r#""elapsedMs":901"#));
}

#[test]
fn resolution_trace_marks_authoritative_dns_as_delegated() {
    let mut dns_trace = DnsTraceRecorder::new();
    dns_trace.push(DnsTraceEvent {
        protocol: "udp53",
        server: "192.0.2.53:53".to_owned(),
        status: "ok".to_owned(),
        elapsed_ms: 19,
        error: None,
    });
    let body = Vec::new();
    let trace = resolution_trace_json(
        &input("https", "denuoweb", 443, &body),
        GatewayResolutionMode::Compatibility,
        Some(&ResolutionAnswer {
            name: name("denuoweb"),
            records: vec![address_record("denuoweb", [35, 212, 156, 128])],
            secure: true,
        }),
        no_tls(),
        None,
        &FallbackMarker::new(),
        &dns_trace.events,
    );

    assert!(trace.contains(r#""delegation":true"#));
    assert!(trace.contains(r#""resourceRecords":["A"]"#));
    assert!(trace.contains(r#""fallback":{"used":false"#));
}

#[test]
fn resolution_trace_reports_tlsa_and_dane_details() {
    let tlsa = TlsaRecord {
        usage: TlsaUsage::DaneEe,
        selector: TlsaSelector::SubjectPublicKeyInfo,
        matching: TlsaMatching::Sha256,
        association_data: vec![0xaa, 0xbb],
    };
    let tls = TlsValidation::hns_compatibility(true, vec![tlsa]);
    let inspection = TlsCertificateInspection {
        end_entity_der: b"cert".to_vec(),
        end_entity_spki_der: b"spki".to_vec(),
        intermediate_der: vec![b"issuer".to_vec()],
        webpki_status: WebPkiStatus::Invalid,
    };
    let body = Vec::new();
    let trace = resolution_trace_json(
        &input("https", "nathan.woodburn", 443, &body),
        GatewayResolutionMode::Compatibility,
        None,
        TlsTraceInput {
            validation: Some(&tls),
            decision: Some(DaneDecision::Matched(TlsaUsage::DaneEe)),
            inspection: Some(&inspection),
        },
        None,
        &FallbackMarker::new(),
        &Vec::new(),
    );

    assert!(trace.contains(r#""tlsaOwner":"_443._tcp.nathan.woodburn""#));
    assert!(trace.contains(r#""tlsaFound":true"#));
    assert!(trace.contains(r#""dnssecSecure":true"#));
    assert!(trace.contains(
        r#""usage":"DANE-EE","selector":"SPKI","matching":"SHA-256","associationDataHex":"aabb""#
    ));
    assert!(trace.contains(r#""webPkiStatus":"invalid""#));
    assert!(trace.contains(&format!(r#""spkiSha256":"{}""#, sha256_hex(&b"spki".to_vec()))));
    assert!(trace.contains(r#""spkiDerHex":"73706b69""#));
    assert!(trace.contains(r#""intermediateCount":1"#));
    assert!(trace.contains(
        r#""dane":{"decision":"verified","matchedUsage":"DANE-EE","certificateMatch":"pass","webPkiFallback":false}"#
    ));
}

#[test]
fn digests_are_those_of_sha256() {
    assert_eq!(
        sha256_hex(&b"abc".to_vec()),
        "ba7816bf8f01cfea414140de5dae2223b00361a396177a9cb410ff61f20015ad",
    );
    assert_eq!(sha256_hex(&b"spki".to_vec()), hex_lower(&Sha256::digest(b"spki")));
}

struct TestResolver {
    outcome: Result<ResolutionAnswer, fn() -> ResolverError>,
}

impl Resolver for TestResolver {
    fn resolve(&mut self, _request: &ResolutionRequest) -> Result<ResolutionAnswer, ResolverError> {
        match &self.outcome {
            Ok(answer) => Ok(answer.clone()),
            Err(error) => Err(error()),
        }
    }
}

struct CountingErrorResolver {
    calls: usize,
    error: fn() -> ResolverError,
}

impl Resolver for CountingErrorResolver {
    fn resolve(&mut self, _request: &ResolutionRequest) -> Result<ResolutionAnswer, ResolverError> {
        self.calls += 1;
        Err((self.error)())
    }
}

fn request(qname: &str, record_type: RecordType) -> ResolutionRequest {
    ResolutionRequest { qname: qname.to_owned(), qtype: record_type.code() }
}

fn answer(owner: &str, address: [u8; 4]) -> ResolutionAnswer {
    ResolutionAnswer {
        name: name(owner),
        records: vec![address_record(owner, address)],
        secure: true,
    }
}

#[test]
fn fallback_resolver_uses_doh_on_nameserver_transport_error() {
    let answer = answer("nathan.woodburn", [103, 152, 197, 116]);
    let mut resolver = FallbackResolver::new(
        TestResolver { outcome: Err(|| ResolverError::DnsTransport("closed".to_owned())) },
        TestResolver { outcome: Ok(answer.clone()) },
    );

    let resolved = resolver.resolve(&request("nathan.woodburn", RecordType::A)).unwrap();

    assert_eq!(resolved, answer);
}

#[test]
fn fallback_resolver_skips_primary_after_root_fallback() {
    let mut resolver = FallbackResolver::new(
        CountingErrorResolver {
            calls: 0,
            error: || ResolverError::DnsTransport("closed".to_owned()),
        },
        TestResolver { outcome: Ok(answer("shakeshift", [203, 0, 113, 10])) },
    );

    resolver.resolve(&request("shakeshift", RecordType::A)).unwrap();
    resolver.resolve(&request("_443._tcp.shakeshift", RecordType::Tlsa)).unwrap();

    assert_eq!(resolver.primary.calls, 1);
}

#[test]
fn fallback_resolver_uses_doh_on_proof_unavailable_in_compatibility_mode() {
    let answer = answer("welcome", [127, 0, 0, 1]);
    let mut resolver = FallbackResolver::with_marker(
        TestResolver { outcome: Err(|| ResolverError::ProofUnavailable) },
        TestResolver { outcome: Ok(answer.clone()) },
        FallbackMarker::new(),
    );

    assert_eq!(resolver.resolve(&request("welcome", RecordType::A)).unwrap(), answer);
    assert_eq!(resolver.fallback_marker.reason(), Some("local_hns_proof_unavailable"));
}

#[test]
fn strict_resolver_keeps_proof_errors_fail_closed() {
    let mut resolver = android_gateway_resolver(
        GatewayResolutionMode::Strict,
        TestResolver { outcome: Err(|| ResolverError::ProofUnavailable) },
        TestResolver { outcome: Ok(answer("welcome", [127, 0, 0, 1])) },
        FallbackMarker::new(),
    );

    assert_eq!(
        resolver.resolve(&request("welcome", RecordType::A)).unwrap_err(),
        ResolverError::ProofUnavailable,
    );
}

#[test]
fn fallback_is_not_for_every_error() {
    assert_eq!(doh_fallback_reason(&ResolverError::NameNotFound), None);
    assert_eq!(doh_fallback_reason(&ResolverError::ProofNameMismatch), None);
    assert_eq!(
        doh_fallback_reason(&ResolverError::DnssecFailed),
        Some("delegated_dnssec_validation_failed"),
    );
    assert_eq!(
        doh_fallback_reason(&ResolverError::NoNameserverAddress),
        Some("no_verified_nameserver_address"),
    );
    assert_eq!(
        doh_fallback_reason(&ResolverError::InvalidDnsResponse),
        Some("authoritative_nameserver_invalid_response"),
    );
    let mut resolver = android_gateway_resolver(
        GatewayResolutionMode::Compatibility,
        TestResolver { outcome: Err(|| ResolverError::NameNotFound) },
        TestResolver { outcome: Ok(answer("welcome", [127, 0, 0, 1])) },
        FallbackMarker::new(),
    );
    assert_eq!(
        resolver.resolve(&request("welcome", RecordType::A)).unwrap_err(),
        ResolverError::NameNotFound,
    );
    assert_eq!(fallback_cache_root(&request("_443._tcp.Welcome", RecordType::A)), "welcome");
}

#[test]
fn doh_response_parser_uses_ad_bit_for_secure_answers() {
    let qname = name("nathan.woodburn");
    let answer_record = address_record("nathan.woodburn", [103, 152, 197, 116]);
    let message = DnsMessage {
        id: 0x1234,
        flags: 0x81a0,
        questions: vec![DnsQuestion {
            name: qname.clone(),
            record_type: RecordType::A,
            class: 1,
        }],
        answers: vec![answer_record.clone()],
        authorities: Vec::new(),
        additionals: vec![
            ResourceRecord {
                name: DnsName::root(),
                record_type: RecordType::Unknown(DNS_OPT_RECORD_TYPE),
                class: 1232,
                ttl: DNSSEC_DO_FLAG,
                rdata: vec![0, 10, 0, 8, 1, 2, 3, 4, 5, 6, 7, 8],
                target: None,
            },
            ResourceRecord {
                name: DnsName::root(),
                record_type: RecordType::Unknown(24),
                class: 255,
                ttl: 0,
                rdata: vec![0, 253, 0, 0, 0, 0, 0, 0],
                target: None,
            },
        ],
    };

    let answer =
        doh_answer_from_body(0x1234, &qname, RecordType::A, Some(message.clone())).unwrap();

    assert!(answer.secure);
    assert_eq!(answer.records, vec![answer_record]);

    let plain = DnsMessage { flags: 0x8180, ..message.clone() };
    assert!(!doh_answer_from_body(0x1234, &qname, RecordType::A, Some(plain)).unwrap().secure);
    let missing = DnsMessage { flags: 0x8183, answers: Vec::new(), ..message.clone() };
    assert!(doh_answer_from_body(0x1234, &qname, RecordType::A, Some(missing))
        .unwrap()
        .records
        .is_empty());
    let failed = DnsMessage { flags: 0x8182, ..message.clone() };
    assert_eq!(
        doh_answer_from_body(0x1234, &qname, RecordType::A, Some(failed)).unwrap_err(),
        ResolverError::InvalidDnsResponse,
    );
    assert_eq!(
        doh_answer_from_body(0x1235, &qname, RecordType::A, Some(message)).unwrap_err(),
        ResolverError::InvalidDnsResponse,
    );
    assert_eq!(
        doh_answer_from_body(0x1234, &qname, RecordType::A, None).unwrap_err(),
        ResolverError::InvalidDnsResponse,
    );
}

#[test]
fn doh_questions_go_out_over_https() {
    let (qname, qtype) = doh_question(&request("welcome", RecordType::Tlsa)).unwrap();
    assert_eq!((qname.clone(), qtype), (name("welcome"), RecordType::Tlsa));
    let query = build_doh_query(7, &qname, qtype);
    assert_eq!((query.id, query.flags), (7, 0x0100));
    assert_eq!(query.additionals[0].ttl, DNSSEC_DO_FLAG);
    let sent = doh_request(vec![1, 2, 3]);
    assert_eq!(sent.method, "POST");
    assert_eq!(sent.host, "hnsdoh.com");
    assert_eq!(sent.path_and_query, "/dns-query");
    assert_eq!((sent.port, sent.protocol), (443, OriginProtocol::Http11));
    assert_eq!(sent.body, vec![1, 2, 3]);
    assert_eq!(doh_response_body(Ok(origin(Vec::new(), DaneDecision::NoTlsa))), Ok(b"ok".to_vec()));
    assert_eq!(
        doh_response_body(Ok(OriginResponse {
            status: 503,
            ..origin(Vec::new(), DaneDecision::NoTlsa)
        })),
        Err(ResolverError::DnsTransport(
            "HNS DoH compatibility resolver returned HTTP 503".to_owned()
        )),
    );
    assert_eq!(
        doh_response_body(Err(TransportError::Io("refused".to_owned()))),
        Err(ResolverError::DnsTransport(
            "HNS DoH compatibility resolver failed: origin I/O error: refused".to_owned()
        )),
    );
}

#[test]
fn gateway_response_fails_closed_without_resolver_backend() {
    let body = Vec::new();
    let asked = GatewayHttpRequestInput {
        header_text: "X-HNS-Browser-Strict-Mode: 1\r\n",
        ..input("http", "welcome", 80, &body)
    };
    let response = gateway_http_response(
        &asked,
        GatewayOutcome::Failed {
            fault: GatewayFault {
                error: GatewayError::Resolver(ResolverError::ProofUnavailable),
                message: ResolverError::ProofUnavailable.message(),
            },
        },
        &FallbackMarker::new(),
        &Vec::new(),
    );
    let text = String::from_utf8(response).unwrap();

    assert!(text.starts_with("HTTP/1.1 503 HNS Proof Unavailable\r\n"));
    assert!(text.contains("Connection: close\r\n"));
    assert!(text.contains("X-HNS-Resolver-Mode: strict\r\n"));
}

#[test]
fn gateway_response_rejects_malformed_forwarded_headers() {
    let body = Vec::new();
    let asked = GatewayHttpRequestInput {
        header_text: "not-a-header\r\n",
        ..input("http", "welcome", 80, &body)
    };
    assert_eq!(begin_gateway_request(&asked).unwrap_err(), "request header is malformed");
    let response = gateway_http_response(
        &asked,
        GatewayOutcome::NoDirectory { error: "never tried".to_owned() },
        &FallbackMarker::new(),
        &Vec::new(),
    );
    let text = String::from_utf8(response).unwrap();

    assert!(text.starts_with("HTTP/1.1 400 Bad Request\r\n"));
    assert!(text.ends_with("http://welcome/\n400 Bad Request\nrequest header is malformed\n"));
}

#[test]
fn gateway_errors_are_mapped_to_actionable_hns_stages() {
    assert_eq!(
        map_gateway_error(&GatewayError::Resolver(ResolverError::ProofUnavailable)),
        (
            503,
            "HNS Proof Unavailable",
            "No current verified HNS proof is available for this name.",
        ),
    );
    assert_eq!(
        map_gateway_error(&GatewayError::Resolver(ResolverError::NameNotFound)),
        (
            404,
            "HNS Name Not Found",
            "A verified HNS non-inclusion proof says this name does not exist.",
        ),
    );
    assert_eq!(
        map_gateway_error(&GatewayError::Resolver(ResolverError::NoNameserverAddress)),
        (
            502,
            "HNS Nameserver Unavailable",
            "No verified nameserver address is available for this HNS delegation.",
        ),
    );
    assert_eq!(
        map_gateway_error(&GatewayError::Resolver(ResolverError::DnsTransport(
            "timeout".to_owned(),
        ))),
        (
            502,
            "HNS Nameserver Unavailable",
            "Delegated HNS nameserver transport failed closed.",
        ),
    );
    assert_eq!(
        map_gateway_error(&GatewayError::Resolver(ResolverError::InvalidDnsResponse)),
        (
            502,
            "HNS Nameserver Response Invalid",
            "Delegated HNS nameserver response was invalid or lacked required secure denial data.",
        ),
    );
    assert_eq!(
        map_gateway_error(&GatewayError::Resolver(ResolverError::DnssecFailed)),
        (
            502,
            "HNS DNSSEC Validation Failed",
            "Delegated HNS DNSSEC validation failed closed.",
        ),
    );
    assert_eq!(
        map_gateway_error(&GatewayError::Resolver(ResolverError::InvalidResource(
            "malformed".to_owned(),
        ))),
        (
            502,
            "HNS Resource Invalid",
            "Verified HNS resource data is malformed or unsupported.",
        ),
    );
    assert_eq!(
        map_gateway_error(&GatewayError::InsecureResolution),
        (
            502,
            "HNS DNSSEC Validation Failed",
            "Secure HNS resolution was required but the resolver returned an insecure result.",
        ),
    );
    assert_eq!(
        map_gateway_error(&GatewayError::NoResolvedAddress),
        (
            502,
            "HNS Origin Address Missing",
            "Secure HNS resolution did not produce an origin A or AAAA address.",
        ),
    );
    assert_eq!(
        map_gateway_error(&GatewayError::Transport(TransportError::DaneFailed)),
        (
            502,
            "HNS DANE Validation Failed",
            "DANE/TLSA validation failed closed.",
        ),
    );
    assert_eq!(
        map_gateway_error(&GatewayError::UnsupportedSvcb),
        (
            502,
            "HNS HTTPS Service Unsupported",
            "HTTPS/SVCB service binding is malformed or requires unsupported transport policy.",
        ),
    );
    assert_eq!(
        map_gateway_error(&GatewayError::Transport(TransportError::Io("refused".to_owned()))),
        (
            502,
            "HNS Origin Transport Failed",
            "Origin connection failed closed.",
        ),
    );
    assert_eq!(
        map_gateway_error(&GatewayError::Transport(TransportError::Http3(
            "frame error".to_owned(),
        ))),
        (
            502,
            "HNS HTTP/3 Transport Failed",
            "Origin HTTP/3 exchange failed closed.",
        ),
    );
    assert_eq!(
        map_gateway_error(&GatewayError::Transport(TransportError::Quic(
            "handshake failed".to_owned(),
        ))),
        (
            502,
            "HNS QUIC Transport Failed",
            "Origin QUIC connection failed closed.",
        ),
    );
}

#[test]
fn stale_sync_is_told_as_such() {
    assert_eq!(
        map_gateway_error(&GatewayError::Resolver(ResolverError::LocalChainNotCurrent)),
        (
            503,
            "HNS Sync Not Current",
            "HNS header sync is not current enough to determine the state of this name.",
        ),
    );
}

fn welcome_values(tree_root: Hash256, height: u32) -> SqliteResourceValueProvider {
    let mut resources = SqliteResourceValueProvider::from_rows(Vec::new());
    resources
        .insert(
            VerifiedResourceValue::inclusion(
                "welcome".to_owned(),
                name_hash("welcome"),
                owner_glue4_resource("welcome", [127, 0, 0, 1]),
            )
            .with_anchor(tree_root, height),
            1_000,
        )
        .unwrap();
    resources
}

fn proven_from_cache(
    resources: &mut SqliteResourceValueProvider,
    chain: &CanonicalChain,
) -> Result<ProvenNameRecords, ResolverError> {
    cached_value(resources, "welcome", name_hash("welcome"))
        .and_then(|value| cached_records(value, chain))
}

struct CachedProofs {
    values: SqliteResourceValueProvider,
    chain: CanonicalChain,
}

impl HnsProofProvider for CachedProofs {
    fn prove_name(
        &mut self,
        root_name: &str,
        name_hash: NameHash,
    ) -> Result<ProvenNameRecords, ResolverError> {
        cached_value(&mut self.values, root_name, name_hash)
            .and_then(|value| cached_records(value, &self.chain))
    }
}

/// What the browser is answered for `http://welcome` and a path, if the name is
/// proven from stored values and the origin sends `stream`.
fn answered_from_cache(
    values: SqliteResourceValueProvider,
    chain: CanonicalChain,
    path_and_query: &str,
    stream: &[u8],
) -> String {
    let body = Vec::new();
    let asked =
        GatewayHttpRequestInput { path_and_query, ..input("http", "welcome", 8080, &body) };
    let start = begin_gateway_request(&asked).unwrap();
    let mut resolver =
        DelegatingResolver::new(CachedProofs { values, chain }, FailClosedResolver);
    let resolution = resolver.resolve(&start.request.resolution).unwrap();
    assert_eq!(resolution.records[0].rdata, vec![127, 0, 0, 1]);
    let sent = String::from_utf8(build_http_request(&start.request.origin, true)).unwrap();
    assert!(sent.starts_with(&format!("GET {path_and_query} HTTP/1.1\r\n")));
    let (head, body, _, _) =
        parse_http_response(&stream.to_vec(), TransportLimits::default(), "GET").unwrap();
    let response = gateway_http_response(
        &asked,
        GatewayOutcome::Answered {
            reply: GatewayReply {
                resolution,
                tls: TlsValidation::default(),
                origin: head.with_body(body),
            },
        },
        &FallbackMarker::new(),
        &Vec::new(),
    );
    String::from_utf8(response).unwrap()
}

fn reply<T>(origin: T) -> GatewayOutcome<T> {
    GatewayOutcome::Answered {
        reply: GatewayReply {
            resolution: answer("welcome", [127, 0, 0, 1]),
            tls: TlsValidation::default(),
            origin,
        },
    }
}

#[test]
fn gateway_response_fetches_hns_http_from_persistent_resource_cache() {
    let anchor_root = Hash256::new([5; 32]);
    let mut resources = welcome_values(anchor_root, 1);
    let chain = CanonicalChain {
        best_height: Some(1),
        roots: vec![ResourceValueAnchor { tree_root: anchor_root, height: 1 }],
    };
    let proven = proven_from_cache(&mut resources, &chain).unwrap();
    assert!(proven.secure && proven.exists);
    assert_eq!(proven.records[1].rdata, vec![127, 0, 0, 1]);

    let sent = b"hi".to_vec();
    let asked = GatewayHttpRequestInput {
        method: "POST",
        path_and_query: "/path",
        header_text: "Content-Type: text/plain\r\nX-Test: yes\r\n",
        ..input("http", "welcome", 8080, &sent)
    };
    let start = begin_gateway_request(&asked).unwrap();
    assert_eq!(start.mode, GatewayResolutionMode::Compatibility);
    let request = hns_browser::transport::request::build_http_request(&start.request.origin, false);
    let request = String::from_utf8(request).unwrap();
    assert!(request.starts_with("POST /path HTTP/1.1\r\n"));
    assert!(request.contains("Content-Type: text/plain\r\n"));
    assert!(request.contains("X-Test: yes\r\n"));
    assert!(request.contains("Content-Length: 2\r\n"));
    assert!(request.ends_with("\r\n\r\nhi"));

    let response = gateway_http_response(
        &asked,
        reply(origin(Vec::new(), DaneDecision::NoTlsa)),
        &FallbackMarker::new(),
        &Vec::new(),
    );
    let text = String::from_utf8(response).unwrap();

    assert!(text.starts_with("HTTP/1.1 200 OK\r\n"));
    assert!(text.ends_with("\r\n\r\nok"));
}

#[test]
fn gateway_response_accepts_recent_canonical_cached_proof() {
    let proof_root = Hash256::new([5; 32]);
    let newer_root = Hash256::new([6; 32]);
    let mut resources = welcome_values(proof_root, 1);
    let mut chain = CanonicalChain {
        best_height: Some(2),
        roots: vec![
            ResourceValueAnchor { tree_root: proof_root, height: 1 },
            ResourceValueAnchor { tree_root: newer_root, height: 2 },
        ],
    };

    assert!(proven_from_cache(&mut resources, &chain).is_ok());
    let text = answered_from_cache(
        welcome_values(proof_root, 1),
        chain.clone(),
        "/recent",
        b"HTTP/1.1 200 OK\r\nContent-Length: 6\r\nConnection: close\r\n\r\nrecent",
    );
    assert!(text.starts_with("HTTP/1.1 200 OK\r\n"));
    assert!(text.ends_with("\r\n\r\nrecent"));

    chain.best_height = Some(146);
    let stale = proven_from_cache(&mut resources, &chain);
    assert!(needs_live_proof(&stale));
    assert_eq!(stale.unwrap_err(), ResolverError::ProofUnavailable);
}

#[test]
fn gateway_response_streams_body_to_file_with_fixed_length_head() {
    let body = Vec::new();
    let asked = GatewayHttpRequestInput {
        path_and_query: "/stream",
        ..input("http", "welcome", 8080, &body)
    };
    let answer = gateway_http_response_body_to_file(
        &asked,
        reply(OriginResponseHead {
            status: 200,
            headers: vec![
                ("Transfer-Encoding".to_owned(), "chunked".to_owned()),
                ("Content-Type".to_owned(), "text/plain".to_owned()),
            ],
            body_len: 4,
            dane_decision: DaneDecision::NoTlsa,
            tls_inspection: None,
        }),
        &FallbackMarker::new(),
        &Vec::new(),
    );
    let text = String::from_utf8(answer.head).unwrap();

    assert!(text.starts_with("HTTP/1.1 200 OK\r\n"));
    assert!(text.contains("Content-Length: 4\r\n"));
    assert!(text.contains("Content-Type: text/plain\r\n"));
    assert!(!text.contains("Transfer-Encoding"));
    assert_eq!(answer.body, None);
}

#[test]
fn gateway_response_fetches_live_proof_on_resource_cache_miss() {
    let proof_root = Hash256::new([5; 32]);
    let chain = CanonicalChain {
        best_height: Some(1),
        roots: vec![ResourceValueAnchor { tree_root: proof_root, height: 1 }],
    };
    let mut resources = SqliteResourceValueProvider::from_rows(Vec::new());
    assert!(needs_live_proof(&proven_from_cache(&mut resources, &chain)));

    let tip = best_synced_header(Some(ChainTip { height: 1, tree_root: proof_root })).unwrap();
    let asked = peer(1, 0, 11, false);
    let mut fetch = LiveProofFetch::new(&vec![asked.clone()], 8, &tip);
    assert_eq!(fetch.next_peer(), Some(&asked.address));
    resources = welcome_values(tip.tree_root, tip.height);
    assert_eq!(
        fetch.on_outcome(1_100, &Ok(11)),
        Some(PeerEvent::Success { address: asked.address.clone(), height: 11, now: 1_100 }),
    );
    assert_eq!(fetch.result(), Some(Ok(())));

    let proven = proven_from_cache(&mut resources, &chain);
    assert!(!needs_live_proof(&proven));
    assert!(proven.unwrap().exists);
    let cached = resources.prove_resource_value("welcome", name_hash("welcome")).unwrap();
    assert_eq!(cached.value, Some(owner_glue4_resource("welcome", [127, 0, 0, 1])));
    assert_eq!(
        cached.anchor,
        Some(ResourceValueAnchor { tree_root: proof_root, height: 1 }),
    );

    let text = answered_from_cache(
        resources,
        chain,
        "/live",
        b"HTTP/1.1 200 OK\r\nContent-Length: 4\r\nConnection: close\r\n\r\nlive",
    );
    assert!(text.starts_with("HTTP/1.1 200 OK\r\n"));
    assert!(text.ends_with("\r\n\r\nlive"));
}

#[test]
fn plain_answers_hold_their_head_and_body() {
    let text = String::from_utf8(plain_response_with_address_and_optional_trace(
        404,
        "Not Found",
        "no such name",
        Some("http://welcome/"),
        None,
    ))
    .unwrap();
    assert_eq!(
        text,
        "HTTP/1.1 404 Not Found\r\nConnection: close\r\nContent-Length: 43\r\nContent-Type: text/plain; charset=utf-8\r\n\r\nhttp://welcome/\n404 Not Found\nno such name\n",
    );
}

#[test]
fn gateway_speaks_of_its_own_failures() {
    let body = Vec::new();
    let asked = input("https", "welcome", 443, &body);
    for (outcome, status, reason, detail) in [
        (
            GatewayOutcome::NoDirectory { error: "denied".to_owned() },
            500,
            "Gateway Storage Error",
            "create gateway directory: denied",
        ),
        (
            GatewayOutcome::NoCache { error: "locked".to_owned() },
            500,
            "Gateway Storage Error",
            "open resource cache: locked",
        ),
        (
            GatewayOutcome::NotConfigured { error: "bad bind".to_owned() },
            500,
            "Gateway Configuration Error",
            "bad bind",
        ),
    ] {
        let text = format!("https://welcome/\n{status} {reason}\n{detail}\n");
        let answer = gateway_http_response_body_to_file(
            &asked,
            outcome,
            &FallbackMarker::new(),
            &Vec::new(),
        );
        assert_eq!(answer.body, Some(text.clone().into_bytes()));
        assert_eq!(
            String::from_utf8(answer.head).unwrap(),
            format!(
                "HTTP/1.1 {status} {reason}\r\nConnection: close\r\nContent-Length: {}\r\nContent-Type: text/plain; charset=utf-8\r\n\r\n",
                text.len()
            ),
        );
    }
    assert_eq!(
        body_file_error(BodyFileStep::CreateDirectory, "x"),
        "create response directory: x",
    );
    assert_eq!(body_file_error(BodyFileStep::CreateFile, "x"), "create response body: x");
    assert_eq!(body_file_error(BodyFileStep::WriteBody, "x"), "write response body: x");
}

#[test]
fn used_fallback_is_told_to_the_browser() {
    let body = Vec::new();
    let asked = input("https", "welcome", 443, &body);
    let mut marker = FallbackMarker::new();
    marker.mark("nameserver_transport_error");
    marker.mark("later");
    let response = gateway_http_response(
        &asked,
        reply(origin(Vec::new(), DaneDecision::Failed)),
        &marker,
        &Vec::new(),
    );
    let text = String::from_utf8(response).unwrap();
    assert!(text.contains("X-HNS-Resolver-Policy: hns-doh-compat\r\n"));
    assert!(text.contains("X-HNS-DoH-Fallback: yes\r\n"));
    assert!(text.contains(
        r#""fallback":{"used":true,"type":"HNS_DOH","reason":"nameserver_transport_error"}"#
    ));
}

#[test]
fn tunnels_are_opened_with_the_heads_of_origins() {
    let body = Vec::new();
    let asked = input("wss", "welcome", 443, &body);
    let tunnel = |head: &[u8]| {
        reply(OriginTunnel {
            response_head: head.to_vec(),
            stream: 1,
            dane_decision: DaneDecision::NoTlsa,
            tls_inspection: None,
        })
    };
    let answer = gateway_http_upgrade_tunnel(
        &asked,
        &tunnel(b"HTTP/1.1 101 Switching Protocols\r\nUpgrade: websocket\r\nX-HNS-Resolver-Mode: x\r\n\r\n"),
        &FallbackMarker::new(),
        &Vec::new(),
    );
    assert!(answer.open);
    let text = String::from_utf8(answer.bytes).unwrap();
    assert!(text.starts_with("HTTP/1.1 101 Switching Protocols\r\nUpgrade: websocket\r\n"));
    assert!(!text.contains("X-HNS-Resolver-Mode: x"));
    assert!(text.ends_with("\r\n\r\n"));

    let refused = gateway_http_upgrade_tunnel(
        &asked,
        &GatewayOutcome::Failed {
            fault: GatewayFault {
                error: GatewayError::Transport(TransportError::UnsupportedUpgrade),
                message: "upgrade".to_owned(),
            },
        },
        &FallbackMarker::new(),
        &Vec::new(),
    );
    assert!(!refused.open);
    assert!(refused.bytes.starts_with(b"HTTP/1.1 "));
    assert!(tunnel_result(false, true, false));
    assert!(!tunnel_result(true, true, false));
    assert!(!tunnel_result(true, false, true));
}

#[test]
fn heads_that_are_no_text_are_read_all_the_same() {
    let head = upgrade_response_head_with_resolver_policy_and_trace(
        &b"HTTP/1.1 101 \xff\r\n\r\n".to_vec(),
        &DaneDecision::NoTlsa,
        None,
        PLAIN_TRACE,
    );
    assert!(String::from_utf8(head).unwrap().starts_with("HTTP/1.1 101 \u{fffd}\r\n"));
}

#[test]
fn bytes_are_passed_on_until_an_end() {
    assert_eq!(client_copy_step(ReadEvent::Bytes(3)), CopyStep::Forward(3));
    assert_eq!(client_copy_step(ReadEvent::Bytes(0)), CopyStep::Stop);
    assert_eq!(client_copy_step(ReadEvent::Interrupted), CopyStep::Again);
    assert_eq!(client_copy_step(ReadEvent::TimedOut), CopyStep::Fail);
    assert_eq!(origin_copy_step(ReadEvent::Bytes(3), true), CopyStep::Forward(3));
    assert_eq!(origin_copy_step(ReadEvent::Bytes(0), false), CopyStep::Stop);
    assert_eq!(origin_copy_step(ReadEvent::TimedOut, false), CopyStep::Again);
    assert_eq!(origin_copy_step(ReadEvent::TimedOut, true), CopyStep::Stop);
    assert_eq!(origin_copy_step(ReadEvent::Interrupted, true), CopyStep::Stop);
    assert_eq!(origin_copy_step(ReadEvent::Failed, true), CopyStep::Fail);
}

#[test]
fn requests_are_told_by_their_address() {
    let body = Vec::new();
    assert_eq!(gateway_request_address(&input("HTTPS", "welcome", 443, &body)), "https://welcome/");
    assert_eq!(
        gateway_request_address(&GatewayHttpRequestInput {
            path_and_query: "",
            ..input("ws", "welcome", 81, &body)
        }),
        "ws://welcome:81/",
    );
    assert_eq!(
        android_authoritative_dns_transport(GatewayResolutionMode::Compatibility).timeout_ms,
        900,
    );
    assert_eq!(
        android_authoritative_dns_transport(GatewayResolutionMode::Strict).timeout_ms,
        3_000,
    );
}

#[test]
fn questions_are_traced_with_their_outcome() {
    let event = dns_trace_event("udp53", "192.0.2.1:53".to_owned(), 5, None);
    assert_eq!(event.status, "ok");
    assert_eq!(event.error, None);
    let error = ResolverError::DnsTransport("operation timed out".to_owned());
    let event = dns_trace_event("tcp53", "192.0.2.1:53".to_owned(), 5, Some(&error));
    assert_eq!(event.status, "timeout");
    assert_eq!(event.error, Some(error.message()));
    let event = doh_trace_event(
        "hnsdoh.com".to_owned(),
        9,
        &Ok(origin(Vec::new(), DaneDecision::NoTlsa)),
    );
    assert_eq!(event.protocol, "hns_doh");
    assert_eq!(event.status, "ok");
    let event = doh_trace_event(
        "hnsdoh.com".to_owned(),
        9,
        &Ok(OriginResponse { status: 404, ..origin(Vec::new(), DaneDecision::NoTlsa) }),
    );
    assert_eq!((event.status.as_str(), event.error), ("http_error", Some("HTTP 404".to_owned())));
}

#[test]
fn request_bodies_stay_out_of_the_gateways_words() {
    let secret = b"secret".to_vec();
    let empty = Vec::new();
    for outcome in [
        GatewayOutcome::NoCache { error: "locked".to_owned() },
        GatewayOutcome::Failed {
            fault: GatewayFault {
                error: GatewayError::Resolver(ResolverError::DnssecFailed),
                message: "DNSSEC failed".to_owned(),
            },
        },
    ] {
        let with = gateway_http_response(
            &input("https", "welcome", 443, &secret),
            outcome.clone(),
            &FallbackMarker::new(),
            &Vec::new(),
        );
        let without = gateway_http_response(
            &input("https", "welcome", 443, &empty),
            outcome,
            &FallbackMarker::new(),
            &Vec::new(),
        );
        assert_eq!(with, without);
    }
}

#[test]
fn framing_of_origins_is_never_passed_on() {
    for header in ["Connection", "CONTENT-LENGTH", "transfer-Encoding", "trailer"] {
        assert!(suppressed_origin_response_header(header));
    }
    assert!(!suppressed_origin_response_header("Content-Type"));
}

#[test]
fn stored_values_serve_only_their_own_name() {
    let mut resources = welcome_values(Hash256::new([5; 32]), 1);
    let value = cached_value(&mut resources, "welcome", name_hash("welcome")).unwrap();
    assert_eq!(value.root_name, "welcome");
    assert!(value.secure);
    assert_eq!(
        cached_value(&mut resources, "welcome", name_hash("other")).map(|value| value.root_name),
        Err(ResolverError::ProofNameMismatch),
    );
    assert_eq!(
        cached_value(&mut resources, "other", name_hash("other")).map(|value| value.root_name),
        Err(ResolverError::ProofUnavailable),
    );
}

#[test]
fn certificates_and_keys_are_put_into_one() {
    assert_eq!(
        tls_bundle_with(&vec![1, 2], &vec![3], &vec![9, 9]),
        Some(vec![0, 0, 0, 2, 1, 2, 0, 0, 0, 1, 3, 9, 9]),
    );
    let made = bundle_of_made(Some((vec![1, 2], vec![3]))).unwrap();
    assert_eq!(made[..11], [0, 0, 0, 2, 1, 2, 0, 0, 0, 1, 3]);
    assert_eq!(made[11..], Sha256::digest([1, 2])[..]);
    assert_eq!(bundle_of_made(None), None);
}

#[test]
fn inspections_are_shown_with_their_digests() {
    let inspection = TlsCertificateInspection {
        end_entity_der: vec![1],
        end_entity_spki_der: vec![0xab],
        intermediate_der: vec![vec![2], vec![3]],
        webpki_status: WebPkiStatus::Invalid,
    };
    let digests = CertificateDigests {
        end_entity: vec![0x01],
        spki: vec![0x02],
        intermediates: vec![vec![0x03], vec![0x04]],
    };
    assert_eq!(
        inspection_json(&inspection, &digests),
        r#"{"webPkiStatus":"invalid","endEntitySha256":"01","spkiSha256":"02","spkiDerHex":"ab","intermediateCount":2,"intermediateSha256":["03","04"]}"#,
    );
}
