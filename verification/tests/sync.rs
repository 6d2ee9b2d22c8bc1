use hns_browser::dns::ServerAddress;
use hns_browser::error::ResolverError;
use hns_browser::hash::{Hash256, NameHash};
use hns_browser::proven::{HnsResourceValueProvider, ResourcePayload, VerifiedResourceValue};
use hns_browser::store::{MemoryResourceValueProvider, SqliteResourceValueProvider};
use hns_browser::sync::chain::{
    CandidateHeader, HeaderAction, HeaderBatchResult, HeaderSyncCoordinator, HeaderVerdict,
    StoredHeader,
};
use hns_browser::sync::error::{ChainError, ProofError, SyncError};
use hns_browser::sync::peer::{
    record_chain_failure, sync_connected, HeaderPeerClient, HeaderPeerConnector, HeaderPeerFailureStage,
    HeaderSyncRunner, HeaderSyncRunnerConfig, PeerEvent, MAX_HEADERS,
};
use hns_browser::sync::proofs::{
    extract_name_state_resource_value, verified_resource_value, CheckedProof, ProofAction,
    ProofKind, ProofPacket, ProofScheduler, ProofStep, ProofSyncCoordinator,
    ProofValidationResult, StampedStore, VerifiedResourceValueSink,
};
use std::collections::VecDeque;

fn hash(seed: u8) -> Hash256 {
    Hash256::new([seed; 32])
}

/// The hash of the header at a height.
fn header_hash(height: u32) -> Hash256 {
    let mut bytes = [7; 32];
    bytes[..4].copy_from_slice(&height.to_le_bytes());
    Hash256::new(bytes)
}

fn stored(height: u32) -> StoredHeader {
    StoredHeader {
        hash: header_hash(height),
        prev_block: if height == 0 { hash(0) } else { header_hash(height - 1) },
        tree_root: hash(1),
        height,
    }
}

fn candidate(height: u32) -> CandidateHeader {
    CandidateHeader {
        hash: header_hash(height),
        prev_block: if height == 0 { hash(0) } else { header_hash(height - 1) },
        tree_root: hash(1),
        verdict: HeaderVerdict::Accepted { height, is_best: true },
    }
}

fn refused(error: ChainError) -> CandidateHeader {
    CandidateHeader { hash: hash(99), verdict: HeaderVerdict::Refused(error), ..candidate(1) }
}

fn seeded_coordinator() -> HeaderSyncCoordinator {
    HeaderSyncCoordinator::new(vec![stored(0)], Some(stored(0)))
}

fn address(port: u16) -> ServerAddress {
    ServerAddress { ip: vec![127, 0, 0, 1], port }
}

struct ScriptedHeaderPeer {
    height: Result<u32, String>,
    batches: VecDeque<Result<Vec<CandidateHeader>, String>>,
    addresses: Vec<ServerAddress>,
}

impl ScriptedHeaderPeer {
    fn header_batches(
        height: u32,
        batches: impl IntoIterator<Item = Result<Vec<CandidateHeader>, String>>,
    ) -> Self {
        Self {
            height: Ok(height),
            batches: batches.into_iter().collect(),
            addresses: Vec::new(),
        }
    }
}

impl HeaderPeerClient for ScriptedHeaderPeer {
    fn handshake(&mut self) -> Result<u32, String> {
        self.height.clone()
    }

    fn request_headers(
        &mut self,
        _locator: Vec<Hash256>,
        _stop: Hash256,
    ) -> Result<Vec<CandidateHeader>, String> {
        self.batches.pop_front().unwrap_or(Ok(Vec::new()))
    }

    fn request_addresses(&mut self) -> Result<Vec<ServerAddress>, String> {
        Ok(self.addresses.clone())
    }
}

struct ScriptedHeaderConnector {
    peers: Vec<(ServerAddress, ScriptedHeaderPeer)>,
}

impl HeaderPeerConnector for ScriptedHeaderConnector {
    type Peer = ScriptedHeaderPeer;

    fn connect(
        &mut self,
        address: &ServerAddress,
        _timeout_ms: u64,
    ) -> Result<ScriptedHeaderPeer, String> {
        match self.peers.iter().position(|(known, _)| known == address) {
            Some(at) => Ok(self.peers.remove(at).1),
            None => Err("connection refused".to_owned()),
        }
    }
}

fn runner(
    peers: Vec<(ServerAddress, ScriptedHeaderPeer)>,
    max_header_batches_per_peer: usize,
) -> HeaderSyncRunner<ScriptedHeaderConnector> {
    HeaderSyncRunner::with_config(
        ScriptedHeaderConnector { peers },
        HeaderSyncRunnerConfig {
            preferred_peers: 1,
            max_header_batches_per_peer,
            ..HeaderSyncRunnerConfig::default()
        },
    )
}

#[test]
fn empty_batch_keeps_best_tip() {
    let mut coordinator = seeded_coordinator();
    let best = coordinator.best_header();

    assert_eq!(
        coordinator.ingest_headers(Vec::new()).unwrap(),
        HeaderBatchResult { accepted: 0, best },
    );
}

#[test]
fn duplicate_headers_are_successful_noops() {
    let mut coordinator = seeded_coordinator();
    let best = coordinator.best_header();

    assert_eq!(
        coordinator.ingest_headers(vec![candidate(0)]).unwrap(),
        HeaderBatchResult { accepted: 0, best },
    );
}

#[test]
fn duplicate_headers_inside_batch_do_not_abort_progress() {
    let mut coordinator = seeded_coordinator();

    let result = coordinator.ingest_headers(vec![candidate(1), candidate(1)]).unwrap();

    assert_eq!(result.accepted, 1);
    assert_eq!(result.best.unwrap().height, 1);
}

#[test]
fn batch_that_comes_again_changes_nothing() {
    let mut coordinator = seeded_coordinator();
    let batch = || vec![candidate(1), candidate(2), candidate(1), candidate(0)];

    let first = coordinator.ingest_headers(batch()).unwrap();
    assert_eq!(first, HeaderBatchResult { accepted: 2, best: Some(stored(2)) });
    let held = coordinator.clone();

    let second = coordinator.ingest_headers(batch()).unwrap();
    assert_eq!(second, HeaderBatchResult { accepted: 0, best: first.best });
    assert_eq!(coordinator, held);
}

#[test]
fn unexpected_action_is_rejected() {
    let mut coordinator = seeded_coordinator();

    assert_eq!(
        coordinator.ingest_action(HeaderAction::Other).unwrap_err(),
        SyncError::UnexpectedAction,
    );
}

#[test]
fn unknown_parent_batch_is_rejected() {
    let mut coordinator = seeded_coordinator();

    assert_eq!(
        coordinator
            .ingest_action(HeaderAction::Headers(vec![refused(ChainError::UnknownParent)]))
            .unwrap_err(),
        SyncError::Chain(ChainError::UnknownParent),
    );
}

#[test]
fn invalid_pow_batch_is_rejected() {
    let mut coordinator = seeded_coordinator();

    assert_eq!(
        coordinator
            .ingest_headers(vec![refused(ChainError::InvalidProofOfWork)])
            .unwrap_err(),
        SyncError::Chain(ChainError::InvalidProofOfWork),
    );
}

#[test]
fn headers_before_a_refused_one_stay() {
    let mut coordinator = seeded_coordinator();

    assert!(coordinator
        .ingest_headers(vec![candidate(1), refused(ChainError::InvalidProofOfWork), candidate(2)])
        .is_err());

    assert_eq!(coordinator.best_header(), Some(stored(1)));
    assert_eq!(coordinator.get_header(&header_hash(2)), None);
}

#[test]
fn locator_starts_from_best_tip() {
    let coordinator = seeded_coordinator();

    assert_eq!(coordinator.locator().unwrap(), vec![header_hash(0)]);
}

#[test]
fn locator_walks_back_in_growing_steps() {
    let coordinator =
        HeaderSyncCoordinator::new((0..=40).map(stored).collect(), Some(stored(40)));

    let locator = coordinator.locator_with_limit(32).unwrap();

    assert_eq!(locator[0], header_hash(40));
    assert_eq!(locator[1], header_hash(39));
    assert_eq!(*locator.last().unwrap(), header_hash(0));
    assert_eq!(coordinator.locator_with_limit(3).unwrap().len(), 3);
    assert_eq!(HeaderSyncCoordinator::new(Vec::new(), None).locator(), Ok(Vec::new()));
    assert_eq!(
        HeaderSyncCoordinator::new(vec![stored(2)], Some(stored(2))).locator(),
        Err(SyncError::Chain(ChainError::UnknownParent)),
    );
}

#[test]
fn header_sync_runner_requests_headers_and_persists_peer_state() {
    let mut coordinator = seeded_coordinator();
    let mut runner = runner(
        vec![(address(12038), ScriptedHeaderPeer::header_batches(1, [Ok(vec![candidate(1)])]))],
        16,
    );

    let (result, events) = runner.sync_once(&mut coordinator, &vec![address(12038)], 500);
    let result = result.unwrap();

    assert_eq!(result.attempted, 1);
    assert_eq!(result.successful, 1);
    assert_eq!(result.accepted, 1);
    assert!(result.failures.is_empty());
    assert_eq!(result.best.unwrap().height, 1);
    assert!(events.contains(&PeerEvent::Success {
        address: address(12038),
        height: 1,
        now: 500,
    }));
}

#[test]
fn header_sync_runner_requests_multiple_header_batches_per_peer() {
    let mut coordinator = seeded_coordinator();
    let headers: Vec<CandidateHeader> =
        (1..=(MAX_HEADERS + 1) as u32).map(candidate).collect();
    let mut runner = runner(
        vec![(
            address(12040),
            ScriptedHeaderPeer::header_batches(
                (MAX_HEADERS + 1) as u32,
                [Ok(headers[..MAX_HEADERS].to_vec()), Ok(headers[MAX_HEADERS..].to_vec())],
            ),
        )],
        2,
    );

    let (result, _) = runner.sync_once(&mut coordinator, &vec![address(12040)], 1_000);
    let result = result.unwrap();

    assert_eq!(result.attempted, 1);
    assert_eq!(result.successful, 1);
    assert_eq!(result.accepted, MAX_HEADERS + 1);
    assert!(result.failures.is_empty());
    assert_eq!(result.best.unwrap().height, (MAX_HEADERS + 1) as u32);
}

#[test]
fn header_sync_runner_stops_duplicate_only_full_batch() {
    let mut coordinator = seeded_coordinator();
    let best = coordinator.best_header();
    let mut runner = runner(
        vec![(
            address(12041),
            ScriptedHeaderPeer::header_batches(0, [Ok(vec![candidate(0); MAX_HEADERS])]),
        )],
        2,
    );

    let (result, _) = runner.sync_once(&mut coordinator, &vec![address(12041)], 1_000);
    let result = result.unwrap();

    assert_eq!(result.attempted, 1);
    assert_eq!(result.successful, 1);
    assert_eq!(result.accepted, 0);
    assert!(result.failures.is_empty());
    assert_eq!(result.best, best);
}

#[test]
fn header_sync_runner_skips_headers_when_peer_is_not_ahead() {
    let mut coordinator = seeded_coordinator();
    let best = coordinator.best_header();
    let mut runner = runner(
        vec![(
            address(12042),
            ScriptedHeaderPeer::header_batches(0, [Err("unexpected action".to_owned())]),
        )],
        16,
    );

    let (result, events) = runner.sync_once(&mut coordinator, &vec![address(12042)], 1_000);
    let result = result.unwrap();

    assert_eq!(result.attempted, 1);
    assert_eq!(result.successful, 1);
    assert_eq!(result.accepted, 0);
    assert!(result.failures.is_empty());
    assert_eq!(result.best, best);
    assert!(events.contains(&PeerEvent::Success {
        address: address(12042),
        height: 0,
        now: 1_000,
    }));
}

#[test]
fn round_keeps_the_locator_limit() {
    let mut coordinator =
        HeaderSyncCoordinator::with_locator_limit(vec![stored(0)], Some(stored(0)), 3);
    let mut runner = runner(
        vec![(address(1), ScriptedHeaderPeer::header_batches(5, [Ok((1..=5).map(candidate).collect())]))],
        4,
    );

    let (result, _) = runner.sync_once(&mut coordinator, &vec![address(1)], 7);
    assert_eq!(result.unwrap().accepted, 5);
    assert_eq!(coordinator.locator_limit, 3);
    assert_eq!(coordinator.locator().unwrap().len(), 3);
}

#[test]
fn scheduler_goes_on_with_what_was_asked_for() {
    let mut coordinator = ProofSyncCoordinator::new();
    coordinator.track_request(hash(1), hash(2));
    let scheduler =
        ProofScheduler::with_coordinator(coordinator, MemoryResourceValueProvider::new());
    assert_eq!(scheduler.pending_len(), 1);
}

#[test]
fn peer_that_is_not_ahead_is_asked_for_no_headers() {
    for discover_peers in [false, true] {
        let mut coordinator = seeded_coordinator();
        let held = coordinator.clone();
        let config = HeaderSyncRunnerConfig { discover_peers, ..HeaderSyncRunnerConfig::default() };
        let mut peer = ScriptedHeaderPeer::header_batches(0, [Ok(vec![candidate(1)])]);

        let (turn, _) = sync_connected(&mut peer, &mut coordinator, &config, &address(1), 9);
        assert!(turn.is_ok());
        assert_eq!(peer.batches.len(), 1);
        assert_eq!(coordinator, held);

        peer.height = Ok(1);
        let (turn, _) = sync_connected(&mut peer, &mut coordinator, &config, &address(1), 9);
        assert!(turn.is_ok());
        assert!(peer.batches.is_empty());
        assert_eq!(coordinator.best_header(), Some(stored(1)));
    }
}

#[test]
fn header_sync_runner_discovers_addresses_from_successful_peer() {
    let mut coordinator = seeded_coordinator();
    let discovered = ServerAddress { ip: vec![127, 0, 0, 2], port: 12038 };
    let mut runner = runner(
        vec![(
            address(12043),
            ScriptedHeaderPeer {
                addresses: vec![discovered.clone()],
                ..ScriptedHeaderPeer::header_batches(0, [Ok(Vec::new())])
            },
        )],
        16,
    );

    let (result, events) = runner.sync_once(&mut coordinator, &vec![address(12043)], 1_000);

    assert_eq!(result.unwrap().successful, 1);
    assert!(events.contains(&PeerEvent::Discovered(vec![discovered])));
}

#[test]
fn header_sync_runner_reports_peer_failure_stage() {
    let mut coordinator = seeded_coordinator();
    let mut runner = runner(Vec::new(), 16);

    let (result, events) = runner.sync_once(&mut coordinator, &vec![address(12039)], 1_000);
    let result = result.unwrap();

    assert_eq!(result.attempted, 1);
    assert_eq!(result.successful, 0);
    assert_eq!(result.accepted, 0);
    assert_eq!(result.failures.len(), 1);
    assert_eq!(result.failures[0].address, address(12039));
    assert_eq!(result.failures[0].stage, HeaderPeerFailureStage::Connect);
    assert!(result.failures[0].error.contains("connection"));
    assert_eq!(events, vec![PeerEvent::TransientFailure { address: address(12039) }]);
}

#[test]
fn header_sync_runner_bans_invalid_pow_peer_and_continues() {
    let mut coordinator = seeded_coordinator();
    let mut runner = HeaderSyncRunner::with_config(
        ScriptedHeaderConnector {
            peers: vec![(
                address(12038),
                ScriptedHeaderPeer::header_batches(
                    1,
                    [Ok(vec![refused(ChainError::InvalidProofOfWork)])],
                ),
            )],
        },
        HeaderSyncRunnerConfig {
            preferred_peers: 1,
            malformed_ban_seconds: 60,
            ..HeaderSyncRunnerConfig::default()
        },
    );

    let (result, events) = runner.sync_once(&mut coordinator, &vec![address(12038)], 1_000);
    let result = result.unwrap();

    assert_eq!(result.attempted, 1);
    assert_eq!(result.successful, 0);
    assert_eq!(result.accepted, 0);
    assert!(events.contains(&PeerEvent::Malformed {
        address: address(12038),
        now: 1_000,
        ban_seconds: 60,
    }));
    assert!(!events.iter().any(|event| matches!(event, PeerEvent::Success { .. })));
}

#[test]
fn header_sync_runner_tells_where_a_peer_failed() {
    for (peer, stage) in [
        (
            ScriptedHeaderPeer {
                height: Err("late".to_owned()),
                ..ScriptedHeaderPeer::header_batches(1, [])
            },
            HeaderPeerFailureStage::Handshake,
        ),
        (
            ScriptedHeaderPeer::header_batches(1, [Err("closed".to_owned())]),
            HeaderPeerFailureStage::Headers,
        ),
        (
            ScriptedHeaderPeer::header_batches(1, [Ok(vec![refused(ChainError::UnknownParent)])]),
            HeaderPeerFailureStage::Chain,
        ),
    ] {
        let mut coordinator = seeded_coordinator();
        let mut runner = runner(vec![(address(12044), peer)], 16);
        let (result, _) = runner.sync_once(&mut coordinator, &vec![address(12044)], 1_000);
        assert_eq!(result.unwrap().failures[0].stage, stage);
    }
    assert_eq!(HeaderPeerFailureStage::Connect.as_str(), "connect");
    assert_eq!(HeaderPeerFailureStage::Headers.as_str(), "headers");
}

#[test]
fn peers_are_judged_by_the_errors_of_their_headers() {
    for (error, event) in [
        (
            ChainError::InvalidDifficultyBits,
            PeerEvent::Malformed { address: address(1), now: 9, ban_seconds: 60 },
        ),
        (ChainError::UnknownParent, PeerEvent::StaleTip { address: address(1) }),
        (
            ChainError::Storage("full".to_owned()),
            PeerEvent::TransientFailure { address: address(1) },
        ),
    ] {
        let mut events = Vec::new();
        record_chain_failure(&mut events, &address(1), 9, &error, 60);
        assert_eq!(events, vec![event]);
    }
}

fn proof_packet(root: u8, key: u8) -> ProofPacket {
    ProofPacket {
        root: hash(root),
        key: hash(key),
        parsed: Ok(CheckedProof {
            root: hash(root),
            key: hash(key),
            kind: ProofKind::Inclusion,
            value: Some(vec![root, key]),
            verified: Ok(true),
        }),
    }
}

#[test]
fn proof_coordinator_rejects_unrequested_proof() {
    let mut coordinator = ProofSyncCoordinator::new();

    assert_eq!(
        coordinator.ingest_proof(proof_packet(1, 2)).unwrap_err(),
        SyncError::UnexpectedProof,
    );
}

#[test]
fn proof_coordinator_rejects_malformed_payload() {
    let mut coordinator = ProofSyncCoordinator::new();
    coordinator.track_request(hash(1), hash(2));

    assert_eq!(
        coordinator
            .ingest_proof(ProofPacket {
                parsed: Err(ProofError::Malformed),
                ..proof_packet(1, 2)
            })
            .unwrap_err(),
        SyncError::Proof(ProofError::Malformed),
    );
}

#[test]
fn proof_coordinator_fails_closed_without_verifier() {
    let mut coordinator = ProofSyncCoordinator::new();
    let mut packet = proof_packet(1, 2);
    packet.parsed.as_mut().unwrap().verified = Err(ProofError::UnsupportedVerifier);
    coordinator.track_request(packet.root, packet.key);

    assert_eq!(
        coordinator.ingest_proof(packet).unwrap_err(),
        SyncError::Proof(ProofError::UnsupportedVerifier),
    );
}

#[test]
fn proof_coordinator_accepts_verified_proof() {
    let mut coordinator = ProofSyncCoordinator::new();
    coordinator.track_request(hash(1), hash(2));

    assert_eq!(
        coordinator.ingest_proof(proof_packet(1, 2)).unwrap(),
        ProofValidationResult {
            root: hash(1),
            key: hash(2),
            kind: ProofKind::Inclusion,
            value: Some(vec![1, 2]),
        },
    );
    assert_eq!(coordinator.pending_len(), 0);
}

#[test]
fn proof_coordinator_takes_no_unverified_or_other_proof() {
    let mut coordinator = ProofSyncCoordinator::new();
    let mut packet = proof_packet(1, 2);
    packet.parsed.as_mut().unwrap().verified = Ok(false);
    coordinator.track_request(hash(1), hash(2));
    assert_eq!(coordinator.ingest_proof(packet).unwrap_err(), SyncError::UnverifiedProof);

    let mut packet = proof_packet(1, 2);
    packet.parsed.as_mut().unwrap().key = hash(3);
    coordinator.track_request(hash(1), hash(2));
    assert_eq!(coordinator.ingest_proof(packet).unwrap_err(), SyncError::ProofMismatch);
    assert!(matches!(
        coordinator.ingest_action(ProofAction::Ready),
        Err(SyncError::UnexpectedAction)
    ));
}

fn name_state_value(name: &str, data: &[u8]) -> Vec<u8> {
    let mut value = Vec::new();
    value.push(name.len() as u8);
    value.extend(name.as_bytes());
    value.extend((data.len() as u16).to_le_bytes());
    value.extend(data);
    value.extend(7_u32.to_le_bytes());
    value.extend(7_u32.to_le_bytes());
    value.extend(0_u16.to_le_bytes());
    value
}

#[test]
fn proof_scheduler_requests_verifies_and_stores_value() {
    let name_hash = NameHash::from_name("welcome").unwrap();
    let root = hash(9);
    let key = name_hash.as_hash();
    let expected_value = vec![0, 4, 127, 0, 0, 1];
    let name_state_value = name_state_value("welcome", &expected_value);

    let mut scheduler = ProofScheduler::new(MemoryResourceValueProvider::new());
    let request = scheduler.request_and_store_at_height("welcome", root, 7).unwrap();
    assert_eq!((request.root, request.name_hash), (root, name_hash));

    assert_eq!(scheduler.start(&request, ProofAction::SendGetProof), Ok(ProofStep::Send));
    assert_eq!(scheduler.pending_len(), 1);
    let step = scheduler
        .on_action(
            &request,
            ProofAction::Proof(ProofPacket {
                root,
                key,
                parsed: Ok(CheckedProof {
                    root,
                    key,
                    kind: ProofKind::Inclusion,
                    value: Some(name_state_value.clone()),
                    verified: Ok(true),
                }),
            }),
        )
        .unwrap();
    let ProofStep::Store(result) = step else { panic!("nothing to store") };
    let result = scheduler.store(&request, result, Ok(Vec::new())).unwrap();

    assert_eq!(result.root, root);
    assert_eq!(result.key, key);
    assert_eq!(result.kind, ProofKind::Inclusion);
    assert_eq!(result.value, Some(name_state_value));
    assert_eq!(scheduler.pending_len(), 0);
    let (_, mut store) = scheduler.into_parts();
    let stored = store.prove_resource_value("welcome", name_hash).unwrap();
    assert_eq!(stored.value.unwrap().bytes, expected_value);
    assert_eq!(stored.anchor.unwrap().tree_root, root);
    assert_eq!(stored.anchor.unwrap().height, 7);
}

#[test]
fn proof_scheduler_fails_closed_for_invalid_name() {
    let scheduler = ProofScheduler::new(MemoryResourceValueProvider::new());

    assert!(matches!(
        scheduler.request_and_store("bad.name", hash(1)),
        Err(SyncError::Resolver(_)),
    ));
    assert_eq!(scheduler.pending_len(), 0);
}

#[test]
fn proof_scheduler_forgets_requests_that_end() {
    let mut scheduler = ProofScheduler::new(MemoryResourceValueProvider::new());
    let name_hash = NameHash::from_name("welcome").unwrap();
    let request = scheduler.request_hash_and_store("welcome", hash(9), name_hash);
    assert_eq!(request.height, None);

    scheduler.start(&request, ProofAction::SendGetProof).unwrap();
    assert_eq!(
        scheduler.connection_failed(&request, "closed".to_owned()),
        SyncError::P2p("closed".to_owned()),
    );
    assert_eq!(scheduler.pending_len(), 0);

    scheduler.start(&request, ProofAction::SendGetProof).unwrap();
    assert_eq!(
        scheduler.on_action(&request, ProofAction::Ready).unwrap_err(),
        SyncError::UnexpectedAction,
    );
    assert_eq!(scheduler.pending_len(), 0);

    scheduler.start(&request, ProofAction::SendGetProof).unwrap();
    assert_eq!(scheduler.on_action(&request, ProofAction::SendOther), Ok(ProofStep::Send));
    assert!(scheduler
        .on_action(&request, ProofAction::Disconnect("bye".to_owned()))
        .is_err());
    assert_eq!(scheduler.coordinator().pending_len(), 0);
    assert!(scheduler.sink().is_empty());
}

#[test]
fn name_states_give_back_their_values() {
    let value = name_state_value("welcome", &[1, 2, 3]);
    assert_eq!(extract_name_state_resource_value("welcome", &value), Ok(vec![1, 2, 3]));
    assert_eq!(
        extract_name_state_resource_value("other", &value),
        Err(SyncError::ProofMismatch),
    );
    for cut in [0, 1, 8, 9, 12, 13, value.len() - 1] {
        assert_eq!(
            extract_name_state_resource_value("welcome", &value[..cut].to_vec()),
            Err(SyncError::MalformedNameStateValue),
        );
    }
    let long = name_state_value("welcome", &[0; 513]);
    assert_eq!(
        extract_name_state_resource_value("welcome", &long),
        Err(SyncError::MalformedNameStateValue),
    );
}

#[test]
fn proofs_of_absence_are_stored_without_a_value() {
    let name_hash = NameHash::from_name("missing").unwrap();
    let result = |kind| ProofValidationResult {
        root: hash(1),
        key: name_hash.as_hash(),
        kind,
        value: None,
    };
    let absent = verified_resource_value(
        "missing".to_owned(),
        name_hash,
        &result(ProofKind::NonInclusion),
        Ok(Vec::new()),
    )
    .unwrap();
    assert_eq!(absent.value, None);
    assert!(absent.secure);
    assert_eq!(
        verified_resource_value(
            "missing".to_owned(),
            name_hash,
            &result(ProofKind::Inclusion),
            Ok(Vec::new()),
        )
        .unwrap_err(),
        SyncError::MissingProofValue,
    );
}

#[test]
fn stamped_stores_keep_the_time() {
    let mut store = StampedStore {
        values: SqliteResourceValueProvider::from_rows(Vec::new()),
        now: 77,
    };
    let value = |hash| {
        VerifiedResourceValue::inclusion(
            "welcome".to_owned(),
            hash,
            ResourcePayload { bytes: vec![1], decoded: Ok(Vec::new()) },
        )
    };
    store
        .insert_verified_resource_value(value(NameHash::from_name("welcome").unwrap()))
        .unwrap();
    assert_eq!(store.values.rows[0].updated_at, 77);
    assert_eq!(
        store.insert_verified_resource_value(value(NameHash::from_name("other").unwrap())),
        Err(ResolverError::ProofNameMismatch),
    );
}
