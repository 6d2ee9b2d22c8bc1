//! One round of header synchronisation over a list of peers.
use crate::dns::{AddressView, ServerAddress};
use crate::hash::Hash256;
use crate::sync::chain;
use crate::sync::chain::{
    CandidateHeader, CandidateView, ChainView, HeaderSyncCoordinator, HeaderView, StoredHeader,
};
use crate::sync::error::{ChainError, SyncError};
use vstd::prelude::*;
use vstd::string::*;

verus! {

pub const DEFAULT_OUTBOUND_PEERS: usize = 8;

pub const DEFAULT_MAX_HEADER_BATCHES_PER_PEER: usize = 16;

pub const DEFAULT_SYNC_TIMEOUT_MS: u64 = 10_000;

pub const DEFAULT_MALFORMED_BAN_SECONDS: u64 = 86_400;

/// The most headers that a peer sends at once.
pub const MAX_HEADERS: usize = 2000;

#[derive(Clone, Copy, Debug, PartialEq, Eq)]
pub struct HeaderSyncRunnerConfig {
    pub preferred_peers: usize,
    pub max_header_batches_per_peer: usize,
    pub discover_peers: bool,
    pub timeout_ms: u64,
    pub stop: Hash256,
    pub malformed_ban_seconds: u64,
}

impl Default for HeaderSyncRunnerConfig {
    fn default() -> (r: Self)
        ensures
            r.preferred_peers == DEFAULT_OUTBOUND_PEERS,
            r.max_header_batches_per_peer == DEFAULT_MAX_HEADER_BATCHES_PER_PEER,
            r.discover_peers,
            r.timeout_ms == DEFAULT_SYNC_TIMEOUT_MS,
            forall|i: int| 0 <= i < 32 ==> r.stop@[i] == 0,
            r.malformed_ban_seconds == DEFAULT_MALFORMED_BAN_SECONDS,
    {
        HeaderSyncRunnerConfig {
            preferred_peers: DEFAULT_OUTBOUND_PEERS,
            max_header_batches_per_peer: DEFAULT_MAX_HEADER_BATCHES_PER_PEER,
            discover_peers: true,
            timeout_ms: DEFAULT_SYNC_TIMEOUT_MS,
            stop: Hash256 { bytes: [0u8; 32] },
            malformed_ban_seconds: DEFAULT_MALFORMED_BAN_SECONDS,
        }
    }
}

/// Where a peer failed.
#[derive(Clone, Copy, Debug, PartialEq, Eq, Structural)]
pub enum HeaderPeerFailureStage {
    Connect,
    Handshake,
    Headers,
    Chain,
}

impl HeaderPeerFailureStage {
    pub open spec fn text(self) -> Seq<char> {
        match self {
            HeaderPeerFailureStage::Connect => "connect"@,
            HeaderPeerFailureStage::Handshake => "handshake"@,
            HeaderPeerFailureStage::Headers => "headers"@,
            HeaderPeerFailureStage::Chain => "chain"@,
        }
    }

    pub fn as_str(self) -> (r: &'static str)
        ensures
            r@ == self.text(),
    {
        match self {
            HeaderPeerFailureStage::Connect => "connect",
            HeaderPeerFailureStage::Handshake => "handshake",
            HeaderPeerFailureStage::Headers => "headers",
            HeaderPeerFailureStage::Chain => "chain",
        }
    }
}

#[derive(Clone, Debug, PartialEq, Eq)]
pub struct HeaderPeerFailure {
    pub address: ServerAddress,
    pub stage: HeaderPeerFailureStage,
    pub error: String,
}

pub struct FailureView {
    pub address: AddressView,
    pub stage: HeaderPeerFailureStage,
    pub error: Seq<char>,
}

impl View for HeaderPeerFailure {
    type V = FailureView;

    open spec fn view(&self) -> FailureView {
        FailureView { address: self.address@, stage: self.stage, error: self.error@ }
    }
}

#[derive(Clone, Debug, PartialEq, Eq)]
pub struct HeaderPeerSyncResult {
    pub address: ServerAddress,
    pub remote_height: u32,
    pub accepted: usize,
    pub best: Option<StoredHeader>,
}

pub struct PeerResultView {
    pub address: AddressView,
    pub remote_height: u32,
    pub accepted: usize,
    pub best: Option<HeaderView>,
}

impl View for HeaderPeerSyncResult {
    type V = PeerResultView;

    open spec fn view(&self) -> PeerResultView {
        PeerResultView {
            address: self.address@,
            remote_height: self.remote_height,
            accepted: self.accepted,
            best: chain::header_option(self.best),
        }
    }
}

/// How a peer's turn ended.
#[derive(Clone, Debug, PartialEq, Eq)]
pub enum HeaderPeerSyncOutcome {
    Success(HeaderPeerSyncResult),
    Failure(HeaderPeerFailure),
}

pub enum OutcomeView {
    Success(PeerResultView),
    Failure(FailureView),
}

impl View for HeaderPeerSyncOutcome {
    type V = OutcomeView;

    open spec fn view(&self) -> OutcomeView {
        match self {
            HeaderPeerSyncOutcome::Success(result) => OutcomeView::Success(result@),
            HeaderPeerSyncOutcome::Failure(failure) => OutcomeView::Failure(failure@),
        }
    }
}

/// What is to be noted of a peer in the peer table.
#[derive(Clone, Debug, PartialEq, Eq)]
pub enum PeerEvent {
    Discovered(Vec<ServerAddress>),
    Success { address: ServerAddress, height: u32, now: u64 },
    TransientFailure { address: ServerAddress },
    StaleTip { address: ServerAddress },
    Malformed { address: ServerAddress, now: u64, ban_seconds: u64 },
}

pub enum EventView {
    Discovered(Seq<AddressView>),
    Success { address: AddressView, height: u32, now: u64 },
    TransientFailure { address: AddressView },
    StaleTip { address: AddressView },
    Malformed { address: AddressView, now: u64, ban_seconds: u64 },
}

impl View for PeerEvent {
    type V = EventView;

    open spec fn view(&self) -> EventView {
        match self {
            PeerEvent::Discovered(addresses) => EventView::Discovered(
                crate::dns::address_views(addresses@),
            ),
            PeerEvent::Success { address, height, now } => EventView::Success {
                address: address@,
                height: *height,
                now: *now,
            },
            PeerEvent::TransientFailure { address } => EventView::TransientFailure {
                address: address@,
            },
            PeerEvent::StaleTip { address } => EventView::StaleTip { address: address@ },
            PeerEvent::Malformed { address, now, ban_seconds } => EventView::Malformed {
                address: address@,
                now: *now,
                ban_seconds: *ban_seconds,
            },
        }
    }
}

pub open spec fn event_views(events: Seq<PeerEvent>) -> Seq<EventView> {
    Seq::new(events.len(), |i: int| events[i]@)
}

/// What a refused batch says of the peer that sent it: invalid headers are
/// malformed, unconnected ones stale, and trouble of our own is passing.
pub open spec fn chain_failure_event(
    error: ChainError,
    address: AddressView,
    now: u64,
    ban_seconds: u64,
) -> EventView {
    match error {
        ChainError::InvalidGenesisHeader
        | ChainError::InvalidDifficultyBits
        | ChainError::InvalidDifficultyWindow
        | ChainError::InvalidProofOfWork
        | ChainError::Pow(_) => EventView::Malformed { address, now, ban_seconds },
        ChainError::UnknownParent | ChainError::DuplicateHeader => EventView::StaleTip { address },
        ChainError::MissingBestHeader | ChainError::Storage(_) => EventView::TransientFailure {
            address,
        },
    }
}

pub fn record_chain_failure(
    events: &mut Vec<PeerEvent>,
    address: &ServerAddress,
    now: u64,
    error: &ChainError,
    malformed_ban_seconds: u64,
)
    ensures
        event_views(final(events)@) == event_views(old(events)@).push(
            chain_failure_event(*error, address@, now, malformed_ban_seconds),
        ),
{
    let ghost start = events@;
    let event = match error {
        ChainError::InvalidGenesisHeader
        | ChainError::InvalidDifficultyBits
        | ChainError::InvalidDifficultyWindow
        | ChainError::InvalidProofOfWork
        | ChainError::Pow(_) => PeerEvent::Malformed {
            address: address.copy(),
            now,
            ban_seconds: malformed_ban_seconds,
        },
        ChainError::UnknownParent | ChainError::DuplicateHeader => PeerEvent::StaleTip {
            address: address.copy(),
        },
        ChainError::MissingBestHeader | ChainError::Storage(_) => PeerEvent::TransientFailure {
            address: address.copy(),
        },
    };
    let ghost seen = event@;
    events.push(event);
    assert(event_views(events@) =~= event_views(start).push(seen));
}

fn note(events: &mut Vec<PeerEvent>, event: PeerEvent)
    ensures
        event_views(final(events)@) == event_views(old(events)@).push(event@),
{
    let ghost start = events@;
    let ghost seen = event@;
    events.push(event);
    assert(event_views(events@) =~= event_views(start).push(seen));
}

/// A connected peer. A header comes with the verdict of the consensus rules.
pub trait HeaderPeerClient: Sized {
    /// Whether the handshake may end in `reply`: the peer's height, or why it failed.
    /// By default anything may.
    open spec fn handshakes(pre: Self, reply: Result<u32, String>, post: Self) -> bool {
        true
    }

    /// Whether the peer may send `reply` for a locator.
    /// By default anything may.
    open spec fn sends_headers(
        pre: Self,
        locator: Seq<Seq<u8>>,
        stop: Seq<u8>,
        reply: Result<Seq<CandidateView>, String>,
        post: Self,
    ) -> bool {
        true
    }

    /// Whether the peer may send `reply` when asked for addresses.
    /// By default anything may.
    open spec fn sends_addresses(
        pre: Self,
        reply: Result<Seq<AddressView>, String>,
        post: Self,
    ) -> bool {
        true
    }

    fn handshake(&mut self) -> (r: Result<u32, String>)
        ensures
            Self::handshakes(*old(self), r, *final(self)),
    ;

    fn request_headers(&mut self, locator: Vec<Hash256>, stop: Hash256) -> (r: Result<
        Vec<CandidateHeader>,
        String,
    >)
        ensures
            Self::sends_headers(
                *old(self),
                chain::hash_views(locator@),
                stop@,
                batch_reply(r),
                *final(self),
            ),
    ;

    fn request_addresses(&mut self) -> (r: Result<Vec<ServerAddress>, String>)
        ensures
            Self::sends_addresses(*old(self), address_reply(r), *final(self)),
    ;
}

pub open spec fn batch_reply(r: Result<Vec<CandidateHeader>, String>) -> Result<
    Seq<CandidateView>,
    String,
> {
    match r {
        Ok(batch) => Ok(chain::candidate_views(batch@)),
        Err(error) => Err(error),
    }
}

pub open spec fn address_reply(r: Result<Vec<ServerAddress>, String>) -> Result<
    Seq<AddressView>,
    String,
> {
    match r {
        Ok(addresses) => Ok(crate::dns::address_views(addresses@)),
        Err(error) => Err(error),
    }
}

/// Connects to peers.
pub trait HeaderPeerConnector: Sized {
    type Peer: HeaderPeerClient;

    /// Whether connecting may end in `reply`: a peer, or why there is none.
    /// By default anything may.
    open spec fn connects(
        pre: Self,
        address: AddressView,
        timeout_ms: u64,
        reply: Result<Self::Peer, String>,
        post: Self,
    ) -> bool {
        true
    }

    fn connect(&mut self, address: &ServerAddress, timeout_ms: u64) -> (r: Result<
        Self::Peer,
        String,
    >)
        ensures
            Self::connects(*old(self), address@, timeout_ms, r, *final(self)),
    ;
}

/// The connector for peers over TCP.
#[derive(Clone, Copy, Debug, PartialEq, Eq)]
pub struct TcpHeaderPeerConnector;

/// How the batches of one peer ended.
pub enum BatchesView {
    /// The peer has no more to send, or its turn is over.
    Done { accepted: usize, best: Option<HeaderView> },
    /// The peer did not send headers.
    NoHeaders(Seq<char>),
    /// A header was refused.
    Refused(ChainError),
    /// Our own chain is missing a parent.
    NoLocator,
}

#[derive(Debug)]
enum Batches {
    Done { accepted: usize, best: Option<StoredHeader> },
    NoHeaders(String),
    Refused(ChainError),
    NoLocator,
}

impl Batches {
    spec fn view(&self) -> BatchesView {
        match self {
            Batches::Done { accepted, best } => BatchesView::Done {
                accepted: *accepted,
                best: chain::header_option(*best),
            },
            Batches::NoHeaders(error) => BatchesView::NoHeaders(error@),
            Batches::Refused(error) => BatchesView::Refused(*error),
            Batches::NoLocator => BatchesView::NoLocator,
        }
    }
}

/// The sum of two counts, at most the largest count.
pub open spec fn saturated(a: int, b: int) -> usize {
    if a + b > usize::MAX {
        usize::MAX
    } else {
        (a + b) as usize
    }
}

/// Whether asking a peer for up to `left` more batches, each from the locator
/// of the chain as it then is, may end in `end`. An empty batch, one that is
/// not full, and one that brings nothing new are the last.
pub open spec fn batches_run<P: HeaderPeerClient>(
    left: nat,
    pre: P,
    before: ChainView,
    locator_limit: usize,
    stop: Seq<u8>,
    accepted: usize,
    best: Option<HeaderView>,
    end: BatchesView,
    after: ChainView,
    post: P,
) -> bool
    decreases left, 2int,
{
    if left == 0 {
        end == (BatchesView::Done { accepted, best }) && after == before && post == pre
    } else {
        match chain::locator_of(before, locator_limit as nat) {
            None => end == BatchesView::NoLocator && after == before && post == pre,
            Some(locator) => batch_asked(
                left,
                pre,
                locator,
                before,
                locator_limit,
                stop,
                accepted,
                best,
                end,
                after,
                post,
            ),
        }
    }
}

/// Whether asking a peer with a locator may end in `end`.
pub open spec fn batch_asked<P: HeaderPeerClient>(
    left: nat,
    pre: P,
    locator: Seq<Seq<u8>>,
    before: ChainView,
    locator_limit: usize,
    stop: Seq<u8>,
    accepted: usize,
    best: Option<HeaderView>,
    end: BatchesView,
    after: ChainView,
    post: P,
) -> bool
    decreases left, 1int,
{
    exists|reply: Result<Seq<CandidateView>, String>, mid: P|
        #[trigger] P::sends_headers(pre, locator, stop, reply, mid) && batch_taken(
            left,
            reply,
            mid,
            before,
            locator_limit,
            stop,
            accepted,
            best,
            end,
            after,
            post,
        )
}

/// What follows a peer's reply to a locator.
pub open spec fn batch_taken<P: HeaderPeerClient>(
    left: nat,
    reply: Result<Seq<CandidateView>, String>,
    mid: P,
    before: ChainView,
    locator_limit: usize,
    stop: Seq<u8>,
    accepted: usize,
    best: Option<HeaderView>,
    end: BatchesView,
    after: ChainView,
    post: P,
) -> bool
    decreases left, 0int,
{
    match reply {
        Err(error) => end == BatchesView::NoHeaders(error@) && after == before && post == mid,
        Ok(batch) => if batch.len() == 0 {
            end == (BatchesView::Done { accepted, best }) && after == before && post == mid
        } else {
            let (next, taken, refused) = chain::with_batch(before, batch, 0);
            match refused {
                Some(error) => end == BatchesView::Refused(error) && after == next && post == mid,
                None => {
                    let total = saturated(accepted as int, taken as int);
                    if left == 0 || batch.len() < MAX_HEADERS || taken == 0 {
                        end == (BatchesView::Done { accepted: total, best: next.best }) && after
                            == next && post == mid
                    } else {
                        batches_run(
                            (left - 1) as nat,
                            mid,
                            next,
                            locator_limit,
                            stop,
                            total,
                            next.best,
                            end,
                            after,
                            post,
                        )
                    }
                },
            }
        },
    }
}

fn run_batches<P: HeaderPeerClient>(
    left: usize,
    peer: &mut P,
    coordinator: &mut HeaderSyncCoordinator,
    stop: Hash256,
    accepted: usize,
    best: Option<StoredHeader>,
) -> (r: Batches)
    ensures
        batches_run(
            left as nat,
            *old(peer),
            old(coordinator)@,
            old(coordinator).locator_limit,
            stop@,
            accepted,
            chain::header_option(best),
            r.view(),
            final(coordinator)@,
            *final(peer),
        ),
        final(coordinator).locator_limit == old(coordinator).locator_limit,
    decreases left, 1int,
{
    if left == 0 {
        return Batches::Done { accepted, best };
    }
    let ghost pre = *peer;
    let ghost before = coordinator@;
    let ghost limit = coordinator.locator_limit;
    let locator = match coordinator.locator() {
        Ok(locator) => locator,
        Err(_) => {
            return Batches::NoLocator;
        },
    };
    let ghost asked = chain::hash_views(locator@);
    let answer = peer.request_headers(locator, stop);
    let ghost reply = batch_reply(answer);
    let ghost mid = *peer;
    assert(P::sends_headers(pre, asked, stop@, reply, mid));
    let r = take_batch(left, answer, peer, coordinator, stop, accepted, best);
    assert(batch_taken(
        left as nat,
        reply,
        mid,
        before,
        limit,
        stop@,
        accepted,
        chain::header_option(best),
        r.view(),
        coordinator@,
        *peer,
    ));
    assert(batch_asked(
        left as nat,
        pre,
        asked,
        before,
        limit,
        stop@,
        accepted,
        chain::header_option(best),
        r.view(),
        coordinator@,
        *peer,
    ));
    assert(batches_run(
        left as nat,
        pre,
        before,
        limit,
        stop@,
        accepted,
        chain::header_option(best),
        r.view(),
        coordinator@,
        *peer,
    ));
    r
}

fn take_batch<P: HeaderPeerClient>(
    left: usize,
    answer: Result<Vec<CandidateHeader>, String>,
    peer: &mut P,
    coordinator: &mut HeaderSyncCoordinator,
    stop: Hash256,
    accepted: usize,
    best: Option<StoredHeader>,
) -> (r: Batches)
    requires
        left > 0,
    ensures
        batch_taken(
            left as nat,
            batch_reply(answer),
            *old(peer),
            old(coordinator)@,
            old(coordinator).locator_limit,
            stop@,
            accepted,
            chain::header_option(best),
            r.view(),
            final(coordinator)@,
            *final(peer),
        ),
        final(coordinator).locator_limit == old(coordinator).locator_limit,
    decreases left, 0int,
{
    let batch = match answer {
        Ok(batch) => batch,
        Err(error) => {
            return Batches::NoHeaders(error);
        },
    };
    let count: usize = batch.len();
    assert(chain::candidate_views(batch@).len() == batch@.len());
    if count == 0 {
        return Batches::Done { accepted, best };
    }
    match coordinator.ingest_headers(batch) {
        Ok(result) => {
            let total: usize = accepted.saturating_add(result.accepted);
            if count < MAX_HEADERS || result.accepted == 0 {
                return Batches::Done { accepted: total, best: result.best };
            }
            run_batches(left - 1, peer, coordinator, stop, total, result.best)
        },
        Err(SyncError::Chain(error)) => Batches::Refused(error),
        Err(_) => Batches::NoLocator,
    }
}

/// The failure of a peer's turn.
pub open spec fn failed(address: AddressView, stage: HeaderPeerFailureStage, error: Seq<char>) -> OutcomeView {
    OutcomeView::Failure(FailureView { address, stage, error })
}

/// The reply of a peer's turn: an outcome, or an error that ends the round.
pub type Turn = Result<OutcomeView, SyncError>;

/// How a peer's turn ends once its batches have.
pub open spec fn turn_after(
    end: BatchesView,
    address: AddressView,
    remote_height: u32,
    now: u64,
    ban_seconds: u64,
) -> (Turn, Seq<EventView>) {
    match end {
        BatchesView::Done { accepted, best } => (
            Ok(
                OutcomeView::Success(PeerResultView { address, remote_height, accepted, best }),
            ),
            seq![EventView::Success { address, height: remote_height, now }],
        ),
        BatchesView::NoHeaders(error) => (
            Ok(failed(address, HeaderPeerFailureStage::Headers, error)),
            seq![EventView::TransientFailure { address }],
        ),
        BatchesView::Refused(error) => (
            match error {
                ChainError::Storage(_) | ChainError::MissingBestHeader => Err(
                    SyncError::Chain(error),
                ),
                _ => Ok(failed(address, HeaderPeerFailureStage::Chain, error.text())),
            },
            seq![chain_failure_event(error, address, now, ban_seconds)],
        ),
        BatchesView::NoLocator => (
            Err(SyncError::Chain(ChainError::UnknownParent)),
            Seq::empty(),
        ),
    }
}

/// Whether the headers of a peer that told its height may be synchronised as
/// given, the peer's last state included. A peer that is not ahead of the best
/// header is left as it was: it is asked for nothing, the chain stays, and its
/// turn is a success. Any other is asked for batches.
pub open spec fn headers_synced<P: HeaderPeerClient>(
    pre: P,
    before: ChainView,
    locator_limit: usize,
    config: HeaderSyncRunnerConfig,
    address: AddressView,
    remote_height: u32,
    now: u64,
    turn: Turn,
    events: Seq<EventView>,
    after: ChainView,
    post: P,
) -> bool {
    if before.best is Some && remote_height <= before.best->0.height {
        &&& post == pre
        &&& after == before
        &&& events == seq![EventView::Success { address, height: remote_height, now }]
        &&& turn == Ok::<_, SyncError>(
            OutcomeView::Success(
                PeerResultView { address, remote_height, accepted: 0, best: before.best },
            ),
        )
    } else {
        exists|end: BatchesView|
            #[trigger] batches_run(
                batch_count(config),
                pre,
                before,
                locator_limit,
                config.stop@,
                0,
                before.best,
                end,
                after,
                post,
            ) && (turn, events) == turn_after(
                end,
                address,
                remote_height,
                now,
                config.malformed_ban_seconds,
            )
    }
}

/// The number of batches that a peer is asked for at most.
pub open spec fn batch_count(config: HeaderSyncRunnerConfig) -> nat {
    if config.max_header_batches_per_peer == 0 {
        1
    } else {
        config.max_header_batches_per_peer as nat
    }
}

/// Whether the turn of a peer, after its handshake, may end as given, the peer's
/// last state included: it is asked for addresses first where that is wanted.
pub open spec fn greeted_peer_synced<P: HeaderPeerClient>(
    pre: P,
    before: ChainView,
    locator_limit: usize,
    config: HeaderSyncRunnerConfig,
    address: AddressView,
    remote_height: u32,
    now: u64,
    turn: Turn,
    events: Seq<EventView>,
    after: ChainView,
    post: P,
) -> bool {
    if config.discover_peers {
        exists|reply: Result<Seq<AddressView>, String>, mid: P|
            #[trigger] P::sends_addresses(pre, reply, mid) && discovered_then(
                reply,
                mid,
                before,
                locator_limit,
                config,
                address,
                remote_height,
                now,
                turn,
                events,
                after,
                post,
            )
    } else {
        headers_synced(
            pre,
            before,
            locator_limit,
            config,
            address,
            remote_height,
            now,
            turn,
            events,
            after,
            post,
        )
    }
}

/// Whether the headers may be synchronised after the peer's addresses were
/// noted; a peer that sends none is no failure.
pub open spec fn discovered_then<P: HeaderPeerClient>(
    reply: Result<Seq<AddressView>, String>,
    pre: P,
    before: ChainView,
    locator_limit: usize,
    config: HeaderSyncRunnerConfig,
    address: AddressView,
    remote_height: u32,
    now: u64,
    turn: Turn,
    events: Seq<EventView>,
    after: ChainView,
    post: P,
) -> bool {
    exists|rest: Seq<EventView>|
        #[trigger] headers_synced(
            pre,
            before,
            locator_limit,
            config,
            address,
            remote_height,
            now,
            turn,
            rest,
            after,
            post,
        ) && events == match reply {
            Ok(addresses) => seq![EventView::Discovered(addresses)] + rest,
            Err(_) => rest,
        }
}

/// Whether the turn of a connected peer may end as given, the peer's last state
/// included. After a failed handshake it is asked for nothing.
pub open spec fn connected_peer_synced<P: HeaderPeerClient>(
    pre: P,
    before: ChainView,
    locator_limit: usize,
    config: HeaderSyncRunnerConfig,
    address: AddressView,
    now: u64,
    turn: Turn,
    events: Seq<EventView>,
    after: ChainView,
    post: P,
) -> bool {
    exists|reply: Result<u32, String>, mid: P|
        #[trigger] P::handshakes(pre, reply, mid) && match reply {
            Err(error) => {
                &&& turn == Ok::<_, SyncError>(
                    failed(address, HeaderPeerFailureStage::Handshake, error@),
                )
                &&& events == seq![EventView::TransientFailure { address }]
                &&& after == before
                &&& post == mid
            },
            Ok(remote_height) => greeted_peer_synced(
                mid,
                before,
                locator_limit,
                config,
                address,
                remote_height,
                now,
                turn,
                events,
                after,
                post,
            ),
        }
}

/// Whether a peer's turn may end as given.
pub open spec fn peer_synced<C: HeaderPeerConnector>(
    pre: C,
    before: ChainView,
    locator_limit: usize,
    config: HeaderSyncRunnerConfig,
    address: AddressView,
    now: u64,
    turn: Turn,
    events: Seq<EventView>,
    after: ChainView,
    post: C,
) -> bool {
    exists|reply: Result<C::Peer, String>|
        #[trigger] C::connects(pre, address, config.timeout_ms, reply, post) && match reply {
            Err(error) => {
                &&& turn == Ok::<_, SyncError>(
                    failed(address, HeaderPeerFailureStage::Connect, error@),
                )
                &&& events == seq![EventView::TransientFailure { address }]
                &&& after == before
            },
            Ok(peer) => exists|end: C::Peer|
                #[trigger] connected_peer_synced(
                    peer,
                    before,
                    locator_limit,
                    config,
                    address,
                    now,
                    turn,
                    events,
                    after,
                    end,
                ),
        }
}

pub open spec fn turn_reply(r: Result<HeaderPeerSyncOutcome, SyncError>) -> Turn {
    match r {
        Ok(outcome) => Ok(outcome@),
        Err(error) => Err(error),
    }
}

fn sync_headers<P: HeaderPeerClient>(
    peer: &mut P,
    coordinator: &mut HeaderSyncCoordinator,
    config: &HeaderSyncRunnerConfig,
    address: &ServerAddress,
    remote_height: u32,
    now: u64,
) -> (r: (Result<HeaderPeerSyncOutcome, SyncError>, Vec<PeerEvent>))
    ensures
        headers_synced(
            *old(peer),
            old(coordinator)@,
            old(coordinator).locator_limit,
            *config,
            address@,
            remote_height,
            now,
            turn_reply(r.0),
            event_views(r.1@),
            final(coordinator)@,
            *final(peer),
        ),
        final(coordinator).locator_limit == old(coordinator).locator_limit,
{
    let ghost pre = *peer;
    let ghost before = coordinator@;
    let mut events: Vec<PeerEvent> = Vec::new();
    assert(event_views(events@) =~= Seq::empty());
    let best = coordinator.best_header();
    let behind = match &best {
        Some(header) => remote_height <= header.height,
        None => false,
    };
    if behind {
        note(
            &mut events,
            PeerEvent::Success { address: address.copy(), height: remote_height, now },
        );
        assert(event_views(events@) =~= seq![
            EventView::Success { address: address@, height: remote_height, now },
        ]);
        return (
            Ok(
                HeaderPeerSyncOutcome::Success(
                    HeaderPeerSyncResult {
                        address: address.copy(),
                        remote_height,
                        accepted: 0,
                        best,
                    },
                ),
            ),
            events,
        );
    }
    let left: usize = if config.max_header_batches_per_peer == 0 {
        1
    } else {
        config.max_header_batches_per_peer
    };
    let end = run_batches(left, peer, coordinator, config.stop, 0, best);
    let ghost ended = end.view();
    assert(batches_run(
        batch_count(*config),
        pre,
        before,
        old(coordinator).locator_limit,
        config.stop@,
        0,
        before.best,
        ended,
        coordinator@,
        *peer,
    ));
    let turn = match end {
        Batches::Done { accepted, best } => {
            note(
                &mut events,
                PeerEvent::Success { address: address.copy(), height: remote_height, now },
            );
            Ok(
                HeaderPeerSyncOutcome::Success(
                    HeaderPeerSyncResult { address: address.copy(), remote_height, accepted, best },
                ),
            )
        },
        Batches::NoHeaders(error) => {
            note(&mut events, PeerEvent::TransientFailure { address: address.copy() });
            Ok(
                HeaderPeerSyncOutcome::Failure(
                    HeaderPeerFailure {
                        address: address.copy(),
                        stage: HeaderPeerFailureStage::Headers,
                        error,
                    },
                ),
            )
        },
        Batches::Refused(error) => {
            record_chain_failure(
                &mut events,
                address,
                now,
                &error,
                config.malformed_ban_seconds,
            );
            match error {
                ChainError::Storage(_) | ChainError::MissingBestHeader => Err(
                    SyncError::Chain(error),
                ),
                _ => Ok(
                    HeaderPeerSyncOutcome::Failure(
                        HeaderPeerFailure {
                            address: address.copy(),
                            stage: HeaderPeerFailureStage::Chain,
                            error: error.message(),
                        },
                    ),
                ),
            }
        },
        Batches::NoLocator => Err(SyncError::Chain(ChainError::UnknownParent)),
    };
    proof {
        let expected = turn_after(
            ended,
            address@,
            remote_height,
            now,
            config.malformed_ban_seconds,
        );
        assert(event_views(events@) =~= expected.1);
        assert(turn_reply(turn) == expected.0);
    }
    (turn, events)
}

fn put_first(first: PeerEvent, rest: Vec<PeerEvent>) -> (r: Vec<PeerEvent>)
    ensures
        event_views(r@) == seq![first@] + event_views(rest@),
{
    let ghost seen = first@;
    let ghost tail = event_views(rest@);
    let mut rest = rest;
    rest.insert(0, first);
    assert(event_views(rest@) =~= seq![seen] + tail);
    rest
}

fn sync_greeted<P: HeaderPeerClient>(
    peer: &mut P,
    coordinator: &mut HeaderSyncCoordinator,
    config: &HeaderSyncRunnerConfig,
    address: &ServerAddress,
    remote_height: u32,
    now: u64,
) -> (r: (Result<HeaderPeerSyncOutcome, SyncError>, Vec<PeerEvent>))
    ensures
        greeted_peer_synced(
            *old(peer),
            old(coordinator)@,
            old(coordinator).locator_limit,
            *config,
            address@,
            remote_height,
            now,
            turn_reply(r.0),
            event_views(r.1@),
            final(coordinator)@,
            *final(peer),
        ),
        final(coordinator).locator_limit == old(coordinator).locator_limit,
{
    if !config.discover_peers {
        return sync_headers(peer, coordinator, config, address, remote_height, now);
    }
    let ghost pre = *peer;
    let ghost before = coordinator@;
    let ghost limit = coordinator.locator_limit;
    let found = peer.request_addresses();
    let ghost reply = address_reply(found);
    let ghost mid = *peer;
    assert(P::sends_addresses(pre, reply, mid));
    let (turn, rest) = sync_headers(peer, coordinator, config, address, remote_height, now);
    let ghost later = event_views(rest@);
    let events = match found {
        Ok(addresses) => put_first(PeerEvent::Discovered(addresses), rest),
        Err(_) => rest,
    };
    assert(headers_synced(
        mid,
        before,
        limit,
        *config,
        address@,
        remote_height,
        now,
        turn_reply(turn),
        later,
        coordinator@,
        *peer,
    ));
    assert(discovered_then(
        reply,
        mid,
        before,
        limit,
        *config,
        address@,
        remote_height,
        now,
        turn_reply(turn),
        event_views(events@),
        coordinator@,
        *peer,
    ));
    (turn, events)
}

/// Greets a connected peer and synchronises from it.
pub fn sync_connected<P: HeaderPeerClient>(
    peer: &mut P,
    coordinator: &mut HeaderSyncCoordinator,
    config: &HeaderSyncRunnerConfig,
    address: &ServerAddress,
    now: u64,
) -> (r: (Result<HeaderPeerSyncOutcome, SyncError>, Vec<PeerEvent>))
    ensures
        connected_peer_synced(
            *old(peer),
            old(coordinator)@,
            old(coordinator).locator_limit,
            *config,
            address@,
            now,
            turn_reply(r.0),
            event_views(r.1@),
            final(coordinator)@,
            *final(peer),
        ),
        final(coordinator).locator_limit == old(coordinator).locator_limit,
{
    let ghost pre = *peer;
    let greeting = peer.handshake();
    assert(P::handshakes(pre, greeting, *peer));
    match greeting {
        Err(error) => {
            let mut events: Vec<PeerEvent> = Vec::new();
            note(&mut events, PeerEvent::TransientFailure { address: address.copy() });
            assert(event_views(events@) =~= seq![
                EventView::TransientFailure { address: address@ },
            ]);
            (
                Ok(
                    HeaderPeerSyncOutcome::Failure(
                        HeaderPeerFailure {
                            address: address.copy(),
                            stage: HeaderPeerFailureStage::Handshake,
                            error,
                        },
                    ),
                ),
                events,
            )
        },
        Ok(remote_height) => sync_greeted(
            peer,
            coordinator,
            config,
            address,
            remote_height,
            now,
        ),
    }
}

/// The outcome of one round over the peers.
#[derive(Clone, Debug, PartialEq, Eq)]
pub struct HeaderSyncRunResult {
    pub attempted: usize,
    pub successful: usize,
    pub accepted: usize,
    pub best: Option<StoredHeader>,
    pub failures: Vec<HeaderPeerFailure>,
}

pub struct RunView {
    pub attempted: usize,
    pub successful: usize,
    pub accepted: usize,
    pub best: Option<HeaderView>,
    pub failures: Seq<FailureView>,
}

pub open spec fn failure_views(failures: Seq<HeaderPeerFailure>) -> Seq<FailureView> {
    Seq::new(failures.len(), |i: int| failures[i]@)
}

impl View for HeaderSyncRunResult {
    type V = RunView;

    open spec fn view(&self) -> RunView {
        RunView {
            attempted: self.attempted,
            successful: self.successful,
            accepted: self.accepted,
            best: chain::header_option(self.best),
            failures: failure_views(self.failures@),
        }
    }
}

/// The round before any peer.
pub open spec fn empty_run() -> RunView {
    RunView { attempted: 0, successful: 0, accepted: 0, best: None, failures: Seq::empty() }
}

impl HeaderSyncRunResult {
    pub fn empty() -> (r: Self)
        ensures
            r@ == empty_run(),
    {
        let r = HeaderSyncRunResult {
            attempted: 0,
            successful: 0,
            accepted: 0,
            best: None,
            failures: Vec::new(),
        };
        assert(r@.failures =~= Seq::empty());
        r
    }

    /// Counts a peer's outcome into the round.
    pub fn count(self, outcome: HeaderPeerSyncOutcome) -> (r: Self)
        ensures
            r@ == counted(self@, outcome@),
    {
        let attempted: usize = self.attempted.saturating_add(1);
        match outcome {
            HeaderPeerSyncOutcome::Success(result) => HeaderSyncRunResult {
                attempted,
                successful: self.successful.saturating_add(1),
                accepted: self.accepted.saturating_add(result.accepted),
                best: result.best,
                failures: self.failures,
            },
            HeaderPeerSyncOutcome::Failure(failure) => {
                let ghost seen = failure@;
                let ghost before = failure_views(self.failures@);
                let mut failures = self.failures;
                failures.push(failure);
                assert(failure_views(failures@) =~= before.push(seen));
                HeaderSyncRunResult {
                    attempted,
                    successful: self.successful,
                    accepted: self.accepted,
                    best: self.best,
                    failures,
                }
            },
        }
    }
}

/// A round with one more outcome.
pub open spec fn counted(run: RunView, outcome: OutcomeView) -> RunView {
    let attempted = saturated(run.attempted as int, 1);
    match outcome {
        OutcomeView::Success(result) => RunView {
            attempted,
            successful: saturated(run.successful as int, 1),
            accepted: saturated(run.accepted as int, result.accepted as int),
            best: result.best,
            ..run
        },
        OutcomeView::Failure(failure) => RunView {
            attempted,
            failures: run.failures.push(failure),
            ..run
        },
    }
}

pub open spec fn run_reply(r: Result<HeaderSyncRunResult, SyncError>) -> Result<
    RunView,
    SyncError,
> {
    match r {
        Ok(run) => Ok(run@),
        Err(error) => Err(error),
    }
}

/// Whether the turns of the peers `outbound[i..]` may end the round as given.
pub open spec fn round_run<C: HeaderPeerConnector>(
    pre: C,
    before: ChainView,
    locator_limit: usize,
    config: HeaderSyncRunnerConfig,
    outbound: Seq<AddressView>,
    i: nat,
    now: u64,
    run: RunView,
    reply: Result<RunView, SyncError>,
    events: Seq<EventView>,
    after: ChainView,
    post: C,
) -> bool
    decreases outbound.len() - i,
{
    if i >= outbound.len() {
        reply == Ok::<_, SyncError>(run) && events == Seq::<EventView>::empty() && after == before
            && post == pre
    } else {
        exists|turn: Turn, first: Seq<EventView>, rest: Seq<EventView>, mid: ChainView, next: C|
            #![trigger peer_synced(
                pre,
                before,
                locator_limit,
                config,
                outbound[i as int],
                now,
                turn,
                first,
                mid,
                next,
            ), first + rest]
            peer_synced(
                pre,
                before,
                locator_limit,
                config,
                outbound[i as int],
                now,
                turn,
                first,
                mid,
                next,
            ) && events == first + rest && match turn {
                Err(error) => reply == Err::<RunView, _>(error) && rest == Seq::<
                    EventView,
                >::empty() && after == mid && post == next,
                Ok(outcome) => round_run(
                    next,
                    mid,
                    locator_limit,
                    config,
                    outbound,
                    i + 1,
                    now,
                    counted(run, outcome),
                    reply,
                    rest,
                    after,
                    post,
                ),
            }
    }
}

fn join_events(first: Vec<PeerEvent>, rest: Vec<PeerEvent>) -> (r: Vec<PeerEvent>)
    ensures
        event_views(r@) == event_views(first@) + event_views(rest@),
{
    let ghost a = first@;
    let ghost b = rest@;
    let mut first = first;
    let mut rest = rest;
    first.append(&mut rest);
    assert(event_views(first@) =~= event_views(a) + event_views(b));
    first
}

/// Synchronises headers with peers.
pub struct HeaderSyncRunner<C> {
    pub connector: C,
    pub config: HeaderSyncRunnerConfig,
}

impl<C> HeaderSyncRunner<C> {
    pub fn new(connector: C) -> (r: Self)
        ensures
            r.connector == connector,
            r.config.preferred_peers == DEFAULT_OUTBOUND_PEERS,
            r.config.max_header_batches_per_peer == DEFAULT_MAX_HEADER_BATCHES_PER_PEER,
            r.config.discover_peers,
            r.config.timeout_ms == DEFAULT_SYNC_TIMEOUT_MS,
            r.config.malformed_ban_seconds == DEFAULT_MALFORMED_BAN_SECONDS,
            forall|i: int| 0 <= i < 32 ==> r.config.stop@[i] == 0,
    {
        HeaderSyncRunner { connector, config: HeaderSyncRunnerConfig::default() }
    }

    pub fn with_config(connector: C, config: HeaderSyncRunnerConfig) -> (r: Self)
        ensures
            r.connector == connector,
            r.config == config,
    {
        HeaderSyncRunner { connector, config }
    }

    pub fn config(&self) -> (r: &HeaderSyncRunnerConfig)
        ensures
            *r == self.config,
    {
        &self.config
    }

    pub fn connector(&self) -> (r: &C)
        ensures
            *r == self.connector,
    {
        &self.connector
    }
}

impl<C: HeaderPeerConnector> HeaderSyncRunner<C> {
    /// Gives one peer its turn. The second part of the result is what is to be
    /// noted of peers.
    pub fn sync_peer(
        &mut self,
        coordinator: &mut HeaderSyncCoordinator,
        address: &ServerAddress,
        now: u64,
    ) -> (r: (Result<HeaderPeerSyncOutcome, SyncError>, Vec<PeerEvent>))
        ensures
            peer_synced(
                old(self).connector,
                old(coordinator)@,
                old(coordinator).locator_limit,
                old(self).config,
                address@,
                now,
                turn_reply(r.0),
                event_views(r.1@),
                final(coordinator)@,
                final(self).connector,
            ),
            final(self).config == old(self).config,
            final(coordinator).locator_limit == old(coordinator).locator_limit,
    {
        let ghost pre = self.connector;
        let config: HeaderSyncRunnerConfig = self.config;
        let connected = self.connector.connect(address, config.timeout_ms);
        assert(C::connects(pre, address@, config.timeout_ms, connected, self.connector));
        match connected {
            Err(error) => {
                let mut events: Vec<PeerEvent> = Vec::new();
                note(&mut events, PeerEvent::TransientFailure { address: address.copy() });
                assert(event_views(events@) =~= seq![
                    EventView::TransientFailure { address: address@ },
                ]);
                (
                    Ok(
                        HeaderPeerSyncOutcome::Failure(
                            HeaderPeerFailure {
                                address: address.copy(),
                                stage: HeaderPeerFailureStage::Connect,
                                error,
                            },
                        ),
                    ),
                    events,
                )
            },
            Ok(peer) => {
                let mut peer = peer;
                let ghost start = peer;
                let ghost before = coordinator@;
                let ghost limit = coordinator.locator_limit;
                let r = sync_connected(&mut peer, coordinator, &config, address, now);
                assert(connected_peer_synced(
                    start,
                    before,
                    limit,
                    config,
                    address@,
                    now,
                    turn_reply(r.0),
                    event_views(r.1@),
                    coordinator@,
                    peer,
                ));
                r
            },
        }
    }

    fn run_from(
        &mut self,
        coordinator: &mut HeaderSyncCoordinator,
        outbound: &Vec<ServerAddress>,
        i: usize,
        now: u64,
        run: HeaderSyncRunResult,
    ) -> (r: (Result<HeaderSyncRunResult, SyncError>, Vec<PeerEvent>))
        requires
            i <= outbound.len(),
        ensures
            round_run(
                old(self).connector,
                old(coordinator)@,
                old(coordinator).locator_limit,
                old(self).config,
                crate::dns::address_views(outbound@),
                i as nat,
                now,
                run@,
                run_reply(r.0),
                event_views(r.1@),
                final(coordinator)@,
                final(self).connector,
            ),
            final(self).config == old(self).config,
            final(coordinator).locator_limit == old(coordinator).locator_limit,
        decreases outbound.len() - i,
    {
        let ghost all = crate::dns::address_views(outbound@);
        if i >= outbound.len() {
            let none: Vec<PeerEvent> = Vec::new();
            assert(event_views(none@) =~= Seq::empty());
            return (Ok(run), none);
        }
        let ghost pre = self.connector;
        let ghost before = coordinator@;
        let ghost limit = coordinator.locator_limit;
        let ghost config = self.config;
        assert(all[i as int] == outbound@[i as int]@);
        let (turn, first) = self.sync_peer(coordinator, &outbound[i], now);
        let ghost said = turn_reply(turn);
        let ghost early = event_views(first@);
        let ghost mid = coordinator@;
        let ghost next = self.connector;
        assert(peer_synced(pre, before, limit, config, all[i as int], now, said, early, mid, next));
        match turn {
            Err(error) => {
                assert(early + Seq::<EventView>::empty() =~= early);
                (Err(error), first)
            },
            Ok(outcome) => {
                let (reply, rest) = self.run_from(
                    coordinator,
                    outbound,
                    i + 1,
                    now,
                    run.count(outcome),
                );
                let ghost late = event_views(rest@);
                let events = join_events(first, rest);
                assert(event_views(events@) == early + late);
                (reply, events)
            },
        }
    }

    /// Gives each of the selected peers its turn and counts the outcomes.
    pub fn sync_once(
        &mut self,
        coordinator: &mut HeaderSyncCoordinator,
        outbound: &Vec<ServerAddress>,
        now: u64,
    ) -> (r: (Result<HeaderSyncRunResult, SyncError>, Vec<PeerEvent>))
        ensures
            round_run(
                old(self).connector,
                old(coordinator)@,
                old(coordinator).locator_limit,
                old(self).config,
                crate::dns::address_views(outbound@),
                0,
                now,
                empty_run(),
                run_reply(r.0),
                event_views(r.1@),
                final(coordinator)@,
                final(self).connector,
            ),
            final(self).config == old(self).config,
            final(coordinator).locator_limit == old(coordinator).locator_limit,
    {
        self.run_from(coordinator, outbound, 0, now, HeaderSyncRunResult::empty())
    }
}

/// A round that ends well counts every peer exactly once, as a success or as a
/// failure.
pub proof fn law_every_peer_is_counted<C: HeaderPeerConnector>(
    pre: C,
    before: ChainView,
    locator_limit: usize,
    config: HeaderSyncRunnerConfig,
    outbound: Seq<AddressView>,
    now: u64,
    result: RunView,
    events: Seq<EventView>,
    after: ChainView,
    post: C,
)
    requires
        outbound.len() <= usize::MAX,
        round_run(
            pre,
            before,
            locator_limit,
            config,
            outbound,
            0,
            now,
            empty_run(),
            Ok(result),
            events,
            after,
            post,
        ),
    ensures
        result.attempted == outbound.len(),
        result.successful + result.failures.len() == result.attempted,
{
    lemma_peers_counted(
        pre,
        before,
        locator_limit,
        config,
        outbound,
        0,
        now,
        empty_run(),
        result,
        events,
        after,
        post,
    );
}

proof fn lemma_peers_counted<C: HeaderPeerConnector>(
    pre: C,
    before: ChainView,
    locator_limit: usize,
    config: HeaderSyncRunnerConfig,
    outbound: Seq<AddressView>,
    i: nat,
    now: u64,
    run: RunView,
    result: RunView,
    events: Seq<EventView>,
    after: ChainView,
    post: C,
)
    requires
        i <= outbound.len() <= usize::MAX,
        run.attempted == i,
        run.successful + run.failures.len() == run.attempted,
        round_run(
            pre,
            before,
            locator_limit,
            config,
            outbound,
            i,
            now,
            run,
            Ok(result),
            events,
            after,
            post,
        ),
    ensures
        result.attempted == outbound.len(),
        result.successful + result.failures.len() == result.attempted,
    decreases outbound.len() - i,
{
    if i < outbound.len() {
        let (turn, first, rest, mid, next) = choose|
            turn: Turn,
            first: Seq<EventView>,
            rest: Seq<EventView>,
            mid: ChainView,
            next: C,
        |
            #![trigger peer_synced(
                pre,
                before,
                locator_limit,
                config,
                outbound[i as int],
                now,
                turn,
                first,
                mid,
                next,
            ), first + rest]
            peer_synced(
                pre,
                before,
                locator_limit,
                config,
                outbound[i as int],
                now,
                turn,
                first,
                mid,
                next,
            ) && events == first + rest && match turn {
                Err(error) => Ok::<RunView, SyncError>(result) == Err::<RunView, _>(error)
                    && rest == Seq::<EventView>::empty() && after == mid && post == next,
                Ok(outcome) => round_run(
                    next,
                    mid,
                    locator_limit,
                    config,
                    outbound,
                    i + 1,
                    now,
                    counted(run, outcome),
                    Ok(result),
                    rest,
                    after,
                    post,
                ),
            };
        lemma_peers_counted(
            next,
            mid,
            locator_limit,
            config,
            outbound,
            i + 1,
            now,
            counted(run, turn->Ok_0),
            result,
            rest,
            after,
            post,
        );
    }
}

/// A peer that is not ahead of the best header leaves the chain as it is, its
/// turn is a success, and it is asked for no headers: at most it was asked for
/// addresses.
pub proof fn law_peer_behind_changes_nothing<P: HeaderPeerClient>(
    pre: P,
    before: ChainView,
    locator_limit: usize,
    config: HeaderSyncRunnerConfig,
    address: AddressView,
    remote_height: u32,
    now: u64,
    turn: Turn,
    events: Seq<EventView>,
    after: ChainView,
    post: P,
)
    requires
        before.best is Some,
        remote_height <= before.best->0.height,
        greeted_peer_synced(
            pre,
            before,
            locator_limit,
            config,
            address,
            remote_height,
            now,
            turn,
            events,
            after,
            post,
        ),
    ensures
        after == before,
        turn is Ok && turn->Ok_0 is Success,
        !config.discover_peers ==> post == pre,
        config.discover_peers ==> exists|reply: Result<Seq<AddressView>, String>|
            #[trigger] P::sends_addresses(pre, reply, post),
        events.last() == (EventView::Success { address, height: remote_height, now }),
{
}

/// A page that brings nothing new is a peer's last, full or not: the peer is
/// not asked again.
pub proof fn law_stale_page_ends_the_turn<P: HeaderPeerClient>(
    left: nat,
    batch: Seq<CandidateView>,
    mid: P,
    before: ChainView,
    locator_limit: usize,
    stop: Seq<u8>,
    accepted: usize,
    best: Option<HeaderView>,
    end: BatchesView,
    after: ChainView,
    post: P,
)
    requires
        batch.len() > 0,
        chain::with_batch(before, batch, 0).1 == 0,
        chain::with_batch(before, batch, 0).2 is None,
        batch_taken(
            left,
            Ok(batch),
            mid,
            before,
            locator_limit,
            stop,
            accepted,
            best,
            end,
            after,
            post,
        ),
    ensures
        post == mid,
        end == (BatchesView::Done { accepted, best: after.best }),
        after == chain::with_batch(before, batch, 0).0,
{
}

/// A peer that is ahead of the best header, or of an empty chain, is asked for
/// headers, as many times as allowed and at least once.
pub proof fn law_peer_ahead_is_asked<P: HeaderPeerClient>(
    pre: P,
    before: ChainView,
    locator_limit: usize,
    config: HeaderSyncRunnerConfig,
    address: AddressView,
    remote_height: u32,
    now: u64,
    turn: Turn,
    events: Seq<EventView>,
    after: ChainView,
    post: P,
) -> (end: BatchesView)
    requires
        headers_synced(
            pre,
            before,
            locator_limit,
            config,
            address,
            remote_height,
            now,
            turn,
            events,
            after,
            post,
        ),
        before.best matches Some(best) ==> remote_height > best.height,
    ensures
        batch_count(config) >= 1,
        batch_count(config) >= config.max_header_batches_per_peer,
        batches_run(
            batch_count(config),
            pre,
            before,
            locator_limit,
            config.stop@,
            0,
            before.best,
            end,
            after,
            post,
        ),
        end matches BatchesView::Done { accepted, best } ==> turn == Ok::<_, SyncError>(
            OutcomeView::Success(PeerResultView { address, remote_height, accepted, best }),
        ) && events == seq![EventView::Success { address, height: remote_height, now }],
        end matches BatchesView::NoHeaders(error) ==> turn == Ok::<_, SyncError>(
            failed(address, HeaderPeerFailureStage::Headers, error),
        ) && events == seq![EventView::TransientFailure { address }],
{
    choose|end: BatchesView|
        #[trigger] batches_run(
            batch_count(config),
            pre,
            before,
            locator_limit,
            config.stop@,
            0,
            before.best,
            end,
            after,
            post,
        ) && (turn, events) == turn_after(
            end,
            address,
            remote_height,
            now,
            config.malformed_ban_seconds,
        )
}

/// A full batch that brings something new is followed by another, asked for from
/// the chain as it then is; one that is not full ends the peer's turn. Either way
/// what it brought is counted.
pub proof fn law_full_batch_is_followed_by_another<P: HeaderPeerClient>(
    left: nat,
    batch: Seq<CandidateView>,
    mid: P,
    before: ChainView,
    locator_limit: usize,
    stop: Seq<u8>,
    accepted: usize,
    best: Option<HeaderView>,
    end: BatchesView,
    after: ChainView,
    post: P,
)
    requires
        batch_taken(
            left,
            Ok(batch),
            mid,
            before,
            locator_limit,
            stop,
            accepted,
            best,
            end,
            after,
            post,
        ),
        left > 0,
        batch.len() > 0,
        chain::with_batch(before, batch, 0).2 is None,
        accepted + chain::with_batch(before, batch, 0).1 <= usize::MAX,
    ensures
        ({
            let (next, taken, _) = chain::with_batch(before, batch, 0);
            &&& batch.len() >= 2000 && taken > 0 ==> batches_run(
                (left - 1) as nat,
                mid,
                next,
                locator_limit,
                stop,
                (accepted + taken) as usize,
                next.best,
                end,
                after,
                post,
            )
            &&& batch.len() < 2000 ==> end == (BatchesView::Done {
                accepted: (accepted + taken) as usize,
                best: next.best,
            }) && after == next && post == mid
        }),
{
}

/// What is noted of a peer whose headers were refused: it is banned where they
/// break the rules of the chain, behind where they do not connect or are known,
/// and not to blame for trouble with our own chain.
pub proof fn law_who_is_to_blame(
    error: ChainError,
    address: AddressView,
    now: u64,
    ban_seconds: u64,
)
    ensures
        ({
            let event = chain_failure_event(error, address, now, ban_seconds);
            &&& error is UnknownParent || error is DuplicateHeader <==> event
                == EventView::StaleTip { address }
            &&& error is MissingBestHeader || error is Storage <==> event
                == EventView::TransientFailure { address }
            &&& !(error is UnknownParent || error is DuplicateHeader || error is MissingBestHeader
                || error is Storage) <==> event == (EventView::Malformed {
                address,
                now,
                ban_seconds,
            })
        }),
{
}

/// The addresses that a peer tells are noted before anything else of its turn, and
/// a peer that tells none has its turn all the same.
pub proof fn law_told_addresses_are_noted<P: HeaderPeerClient>(
    reply: Result<Seq<AddressView>, String>,
    pre: P,
    before: ChainView,
    locator_limit: usize,
    config: HeaderSyncRunnerConfig,
    address: AddressView,
    remote_height: u32,
    now: u64,
    turn: Turn,
    events: Seq<EventView>,
    after: ChainView,
    post: P,
) -> (rest: Seq<EventView>)
    requires
        discovered_then(
            reply,
            pre,
            before,
            locator_limit,
            config,
            address,
            remote_height,
            now,
            turn,
            events,
            after,
            post,
        ),
    ensures
        headers_synced(
            pre,
            before,
            locator_limit,
            config,
            address,
            remote_height,
            now,
            turn,
            rest,
            after,
            post,
        ),
        reply matches Ok(addresses) ==> events.len() == rest.len() + 1 && events[0]
            == EventView::Discovered(addresses) && events.skip(1) == rest,
        reply is Err ==> events == rest,
{
    let rest = choose|rest: Seq<EventView>|
        #[trigger] headers_synced(
            pre,
            before,
            locator_limit,
            config,
            address,
            remote_height,
            now,
            turn,
            rest,
            after,
            post,
        ) && events == match reply {
            Ok(addresses) => seq![EventView::Discovered(addresses)] + rest,
            Err(_) => rest,
        };
    if reply is Ok {
        assert(events.skip(1) =~= rest);
    }
    rest
}

} // verus!
