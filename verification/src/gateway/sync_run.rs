//! A round of synchronisation, step by step.
use crate::gateway::live_proof;
use crate::gateway::live_proof::{PeerRecord, PeerView};
use crate::gateway::status;
use crate::gateway::status::{
    NativeFailureView, NativePeerFailure, NativeSyncStatus, StatusView, ANDROID_MIN_PEER_TARGET,
};
use crate::store::ResourceValueCacheStats;
use crate::text;
use vstd::prelude::*;
use vstd::string::*;

verus! {

/// What is done on disk or over the network.
#[derive(Clone, Copy, Debug, PartialEq, Eq, Structural)]
pub enum SyncStage {
    CreateDirectory,
    OpenHeaderStore,
    ReadBest,
    InsertGenesis,
    OpenPeerStore,
    LoadPeers,
    SeedPeers,
    SaveSeededPeers,
    SyncHeaders,
    ReadSyncedBest,
    OpenCacheToPrune,
    ReadAnchors,
    PruneAnchors,
    OpenCacheToLimit,
    EnforceLimit,
    OpenCacheToCount,
    ReadStats,
    ClearCache,
    Ended,
}

/// How an error of a step is introduced.
pub open spec fn stage_prefix(stage: SyncStage) -> Seq<char> {
    match stage {
        SyncStage::CreateDirectory => "create sync directory: "@,
        SyncStage::OpenHeaderStore => "open header store: "@,
        SyncStage::ReadBest => "read best header: "@,
        SyncStage::InsertGenesis => "insert genesis header: "@,
        SyncStage::OpenPeerStore => "open peer store: "@,
        SyncStage::LoadPeers => "load peer store: "@,
        SyncStage::SeedPeers => ""@,
        SyncStage::SaveSeededPeers => "save seeded peers: "@,
        SyncStage::SyncHeaders => "sync headers: "@,
        SyncStage::ReadSyncedBest => "read synced best header: "@,
        SyncStage::OpenCacheToPrune => "open resource cache: "@,
        SyncStage::ReadAnchors => "read best header for resource cache anchors: "@,
        SyncStage::PruneAnchors => "prune resource cache anchors: "@,
        SyncStage::OpenCacheToLimit => "open resource cache: "@,
        SyncStage::EnforceLimit => "enforce resource cache limit: "@,
        SyncStage::OpenCacheToCount => "open resource cache: "@,
        SyncStage::ReadStats => "read resource cache stats: "@,
        SyncStage::ClearCache => "clear resource cache: "@,
        SyncStage::Ended => ""@,
    }
}

impl SyncStage {
    fn prefix(self) -> (r: &'static str)
        ensures
            r@ == stage_prefix(self),
    {
        match self {
            SyncStage::CreateDirectory => "create sync directory: ",
            SyncStage::OpenHeaderStore => "open header store: ",
            SyncStage::ReadBest => "read best header: ",
            SyncStage::InsertGenesis => "insert genesis header: ",
            SyncStage::OpenPeerStore => "open peer store: ",
            SyncStage::LoadPeers => "load peer store: ",
            SyncStage::SeedPeers => "",
            SyncStage::SaveSeededPeers => "save seeded peers: ",
            SyncStage::SyncHeaders => "sync headers: ",
            SyncStage::ReadSyncedBest => "read synced best header: ",
            SyncStage::OpenCacheToPrune => "open resource cache: ",
            SyncStage::ReadAnchors => "read best header for resource cache anchors: ",
            SyncStage::PruneAnchors => "prune resource cache anchors: ",
            SyncStage::OpenCacheToLimit => "open resource cache: ",
            SyncStage::EnforceLimit => "enforce resource cache limit: ",
            SyncStage::OpenCacheToCount => "open resource cache: ",
            SyncStage::ReadStats => "read resource cache stats: ",
            SyncStage::ClearCache => "clear resource cache: ",
            SyncStage::Ended => "",
        }
    }
}

/// A step that failed.
#[derive(Clone, Debug, PartialEq, Eq)]
pub struct StepError {
    pub stage: SyncStage,
    pub error: String,
}

impl StepError {
    pub open spec fn text(self) -> Seq<char> {
        stage_prefix(self.stage) + self.error@
    }

    pub fn message(&self) -> (r: String)
        ensures
            r@ == self.text(),
    {
        let mut out = self.stage.prefix().to_owned();
        out.append(self.error.as_str());
        out
    }
}

/// How a step came out.
#[derive(Clone, Debug, PartialEq, Eq)]
pub enum SyncReply {
    /// It was done, and there is nothing to tell.
    Done,
    /// The height of the best header, if there is one.
    Best { height: Option<u32> },
    /// How many peers are known.
    PeerCount { count: usize },
    /// How many peers were new.
    Seeded { inserted: usize },
    /// How the peers' turns ended.
    Headers {
        attempted: usize,
        successful: usize,
        accepted: usize,
        failures: Vec<NativePeerFailure>,
    },
    /// What is known after the headers were synchronised.
    Table { best_height: Option<u32>, peers: Vec<PeerRecord>, peer_groups: usize, now: u64 },
    /// There is no store of values.
    NoCache,
    /// How many values were removed.
    Removed { count: usize },
    Stats { entries: usize, value_bytes: usize },
    Failed { error: String },
}

pub enum ReplyView {
    Done,
    Best { height: Option<u32> },
    PeerCount { count: usize },
    Seeded { inserted: usize },
    Headers {
        attempted: usize,
        successful: usize,
        accepted: usize,
        failures: Seq<NativeFailureView>,
    },
    Table { best_height: Option<u32>, peers: Seq<PeerView>, peer_groups: usize, now: u64 },
    NoCache,
    Removed { count: usize },
    Stats { entries: usize, value_bytes: usize },
    Failed { error: Seq<char> },
}

impl View for SyncReply {
    type V = ReplyView;

    open spec fn view(&self) -> ReplyView {
        match *self {
            SyncReply::Done => ReplyView::Done,
            SyncReply::Best { height } => ReplyView::Best { height },
            SyncReply::PeerCount { count } => ReplyView::PeerCount { count },
            SyncReply::Seeded { inserted } => ReplyView::Seeded { inserted },
            SyncReply::Headers { attempted, successful, accepted, failures } => ReplyView::Headers {
                attempted,
                successful,
                accepted,
                failures: status::failure_views(failures@),
            },
            SyncReply::Table { best_height, peers, peer_groups, now } => ReplyView::Table {
                best_height,
                peers: live_proof::peer_views(peers@),
                peer_groups,
                now,
            },
            SyncReply::NoCache => ReplyView::NoCache,
            SyncReply::Removed { count } => ReplyView::Removed { count },
            SyncReply::Stats { entries, value_bytes } => ReplyView::Stats { entries, value_bytes },
            SyncReply::Failed { error } => ReplyView::Failed { error: error@ },
        }
    }
}

/// A round of synchronisation under way: what is to be done next, and what is
/// known so far.
#[derive(Clone, Debug, PartialEq, Eq)]
pub struct SyncRun {
    pub stage: SyncStage,
    pub seed_on_empty: bool,
    pub was_empty: bool,
    pub seed_error: Option<String>,
    pub status: NativeSyncStatus,
}

#[verifier::ext_equal]
pub struct RunView {
    pub stage: SyncStage,
    pub seed_on_empty: bool,
    pub was_empty: bool,
    pub seed_error: Option<Seq<char>>,
    pub status: StatusView,
}

impl View for SyncRun {
    type V = RunView;

    open spec fn view(&self) -> RunView {
        RunView {
            stage: self.stage,
            seed_on_empty: self.seed_on_empty,
            was_empty: self.was_empty,
            seed_error: status::string_view(self.seed_error),
            status: self.status@,
        }
    }
}

/// A round before its first step.
pub open spec fn fresh_run(seed_on_empty: bool) -> RunView {
    RunView {
        stage: SyncStage::CreateDirectory,
        seed_on_empty,
        was_empty: false,
        seed_error: None,
        status: status::bare_status("idle"@, None),
    }
}

pub open spec fn to_stage(run: RunView, stage: SyncStage) -> RunView {
    RunView { stage, ..run }
}

/// What is told when every peer failed.
pub open spec fn all_failed_text(attempted: usize) -> Seq<char> {
    "all "@ + text::decimal(attempted as nat) + " attempted sync peers failed; see failures"@
}

/// The name of the status that a round ends with. A round that reached a peer is
/// still `syncing` while the estimated tip is ahead of the best header, whatever
/// the peers themselves have.
pub open spec fn final_status(run: RunView) -> Seq<char> {
    if run.status.successful > 0 && status::behind(
        run.status.best_height,
        run.status.estimated_tip_height,
    ) {
        "syncing"@
    } else {
        status::classified(
            run.status.attempted,
            run.status.successful,
            run.status.accepted,
            run.status.failed,
            run.seed_error is Some,
            run.status.best_height,
            run.status.best_peer_height,
        )
    }
}

/// The end of a round in which every step was done.
pub open spec fn completed(run: RunView, entries: usize, value_bytes: usize) -> RunView {
    RunView {
        stage: SyncStage::Ended,
        status: StatusView {
            status: final_status(run),
            resource_cache_entries: entries,
            resource_cache_bytes: value_bytes,
            error: if final_status(run) == "peer_failed"@ {
                Some(all_failed_text(run.status.attempted))
            } else {
                run.seed_error
            },
            ..run.status
        },
        ..run
    }
}

/// Removed values are counted, as far as they can be.
pub open spec fn with_removed(run: RunView, count: usize, stage: SyncStage) -> RunView {
    RunView {
        stage,
        status: StatusView {
            resource_cache_evicted: if run.status.resource_cache_evicted + count > usize::MAX {
                usize::MAX
            } else {
                (run.status.resource_cache_evicted + count) as usize
            },
            ..run.status
        },
        ..run
    }
}

/// Whether a step can end in a reply of this kind.
pub open spec fn answers(stage: SyncStage, reply: ReplyView) -> bool {
    match reply {
        ReplyView::Failed { .. } => stage != SyncStage::Ended && stage != SyncStage::ClearCache,
        ReplyView::Done => stage == SyncStage::CreateDirectory || stage
            == SyncStage::OpenHeaderStore || stage == SyncStage::InsertGenesis || stage
            == SyncStage::OpenPeerStore || stage == SyncStage::SaveSeededPeers || stage
            == SyncStage::OpenCacheToPrune || stage == SyncStage::ReadAnchors || stage
            == SyncStage::OpenCacheToLimit || stage == SyncStage::OpenCacheToCount,
        ReplyView::Best { .. } => stage == SyncStage::ReadBest,
        ReplyView::PeerCount { .. } => stage == SyncStage::LoadPeers,
        ReplyView::Seeded { .. } => stage == SyncStage::SeedPeers,
        ReplyView::Headers { .. } => stage == SyncStage::SyncHeaders,
        ReplyView::Table { .. } => stage == SyncStage::ReadSyncedBest,
        ReplyView::NoCache => stage == SyncStage::OpenCacheToPrune || stage
            == SyncStage::OpenCacheToLimit || stage == SyncStage::OpenCacheToCount,
        ReplyView::Removed { .. } => stage == SyncStage::PruneAnchors || stage
            == SyncStage::EnforceLimit,
        ReplyView::Stats { .. } => stage == SyncStage::ReadStats,
    }
}

/// A round after a step: the step that follows, or the end. A reply that its
/// step cannot end in changes nothing.
pub open spec fn stepped(run: RunView, reply: ReplyView) -> RunView {
    if !answers(run.stage, reply) {
        run
    } else {
        match reply {
            ReplyView::Failed { error } => if run.stage == SyncStage::SeedPeers {
                RunView {
                    stage: SyncStage::SyncHeaders,
                    seed_error: if run.was_empty {
                        Some(error)
                    } else {
                        run.seed_error
                    },
                    ..run
                }
            } else {
                RunView {
                    stage: SyncStage::Ended,
                    status: status::bare_status("error"@, Some(stage_prefix(run.stage) + error)),
                    ..run
                }
            },
            ReplyView::Done => match run.stage {
                SyncStage::CreateDirectory => to_stage(run, SyncStage::OpenHeaderStore),
                SyncStage::OpenHeaderStore => to_stage(run, SyncStage::ReadBest),
                SyncStage::InsertGenesis => to_stage(run, SyncStage::OpenPeerStore),
                SyncStage::OpenPeerStore => to_stage(run, SyncStage::LoadPeers),
                SyncStage::SaveSeededPeers => to_stage(run, SyncStage::SyncHeaders),
                SyncStage::OpenCacheToPrune => to_stage(run, SyncStage::ReadAnchors),
                SyncStage::ReadAnchors => to_stage(run, SyncStage::PruneAnchors),
                SyncStage::OpenCacheToLimit => to_stage(run, SyncStage::EnforceLimit),
                _ => to_stage(run, SyncStage::ReadStats),
            },
            ReplyView::Best { height } => to_stage(
                run,
                if height is None {
                    SyncStage::InsertGenesis
                } else {
                    SyncStage::OpenPeerStore
                },
            ),
            ReplyView::PeerCount { count } => RunView {
                stage: if run.seed_on_empty && count < ANDROID_MIN_PEER_TARGET {
                    SyncStage::SeedPeers
                } else {
                    SyncStage::SyncHeaders
                },
                was_empty: count == 0,
                ..run
            },
            ReplyView::Seeded { inserted } => to_stage(
                run,
                if inserted > 0 {
                    SyncStage::SaveSeededPeers
                } else {
                    SyncStage::SyncHeaders
                },
            ),
            ReplyView::Headers { attempted, successful, accepted, failures } => RunView {
                stage: SyncStage::ReadSyncedBest,
                status: StatusView {
                    attempted,
                    successful,
                    accepted,
                    failed: failures.len() as usize,
                    failures,
                    ..run.status
                },
                ..run
            },
            ReplyView::Table { best_height, peers, peer_groups, now } => RunView {
                stage: SyncStage::OpenCacheToPrune,
                status: StatusView {
                    best_height,
                    best_peer_height: status::greatest_height(peers, peers.len()),
                    estimated_tip_height: status::estimated_tip(now),
                    peer_count: peers.len() as usize,
                    peer_groups,
                    ..run.status
                },
                ..run
            },
            ReplyView::NoCache => match run.stage {
                SyncStage::OpenCacheToPrune => to_stage(run, SyncStage::OpenCacheToLimit),
                SyncStage::OpenCacheToLimit => to_stage(run, SyncStage::OpenCacheToCount),
                _ => completed(run, 0, 0),
            },
            ReplyView::Removed { count } => if run.stage == SyncStage::PruneAnchors {
                with_removed(run, count, SyncStage::OpenCacheToLimit)
            } else {
                with_removed(run, count, SyncStage::OpenCacheToCount)
            },
            ReplyView::Stats { entries, value_bytes } => completed(run, entries, value_bytes),
        }
    }
}

impl SyncRun {
    pub fn new(seed_on_empty: bool) -> (r: Self)
        ensures
            r@ == fresh_run(seed_on_empty),
    {
        SyncRun {
            stage: SyncStage::CreateDirectory,
            seed_on_empty,
            was_empty: false,
            seed_error: None,
            status: NativeSyncStatus::empty(),
        }
    }

    fn complete(&mut self, entries: usize, value_bytes: usize)
        ensures
            final(self)@ == completed(old(self)@, entries, value_bytes),
    {
        let ghost start = self@;
        let ahead = status::is_sync_behind(
            self.status.best_height,
            self.status.estimated_tip_height,
        );
        let named = if self.status.successful > 0 && ahead {
            "syncing"
        } else {
            status::classify_sync_status(
                self.status.attempted,
                self.status.successful,
                self.status.accepted,
                self.status.failed,
                self.seed_error.is_some(),
                self.status.best_height,
                self.status.best_peer_height,
            )
        };
        self.status.status = named;
        self.status.resource_cache_entries = entries;
        self.status.resource_cache_bytes = value_bytes;
        if text::same_text(named, "peer_failed") {
            let mut out = "all ".to_owned();
            text::push_decimal(&mut out, self.status.attempted as u64);
            out.append(" attempted sync peers failed; see failures");
            self.status.error = Some(out);
        } else {
            self.status.error = text::copy_option(&self.seed_error);
        }
        self.stage = SyncStage::Ended;
        assert(self@ =~~= completed(start, entries, value_bytes));
    }

    fn count_removed(&mut self, count: usize, stage: SyncStage)
        ensures
            final(self)@ == with_removed(old(self)@, count, stage),
    {
        let ghost start = self@;
        self.status.resource_cache_evicted = self.status.resource_cache_evicted.saturating_add(
            count,
        );
        self.stage = stage;
        assert(self@ =~~= with_removed(start, count, stage));
    }

    fn after_done(&mut self)
        ensures
            final(self)@ == stepped(old(self)@, ReplyView::Done),
    {
        self.stage = match self.stage {
            SyncStage::CreateDirectory => SyncStage::OpenHeaderStore,
            SyncStage::OpenHeaderStore => SyncStage::ReadBest,
            SyncStage::InsertGenesis => SyncStage::OpenPeerStore,
            SyncStage::OpenPeerStore => SyncStage::LoadPeers,
            SyncStage::SaveSeededPeers => SyncStage::SyncHeaders,
            SyncStage::OpenCacheToPrune => SyncStage::ReadAnchors,
            SyncStage::ReadAnchors => SyncStage::PruneAnchors,
            SyncStage::OpenCacheToLimit => SyncStage::EnforceLimit,
            SyncStage::OpenCacheToCount => SyncStage::ReadStats,
            other => other,
        };
    }

    fn after_failure(&mut self, error: String)
        ensures
            final(self)@ == stepped(old(self)@, ReplyView::Failed { error: error@ }),
    {
        match self.stage {
            SyncStage::Ended | SyncStage::ClearCache => {},
            SyncStage::SeedPeers => {
                if self.was_empty {
                    self.seed_error = Some(error);
                }
                self.stage = SyncStage::SyncHeaders;
            },
            _ => {
                let mut out = self.stage.prefix().to_owned();
                out.append(error.as_str());
                self.status = NativeSyncStatus::error(out);
                self.stage = SyncStage::Ended;
            },
        }
    }

    /// Takes the outcome of the step that was to be done.
    pub fn on_reply(&mut self, reply: SyncReply)
        ensures
            final(self)@ == stepped(old(self)@, reply@),
    {
        let ghost start = self@;
        let ghost heard = reply@;
        match reply {
            SyncReply::Done => self.after_done(),
            SyncReply::Failed { error } => self.after_failure(error),
            SyncReply::Best { height } => {
                if self.stage == SyncStage::ReadBest {
                    self.stage = if height.is_none() {
                        SyncStage::InsertGenesis
                    } else {
                        SyncStage::OpenPeerStore
                    };
                }
            },
            SyncReply::PeerCount { count } => {
                if self.stage == SyncStage::LoadPeers {
                    self.was_empty = count == 0;
                    self.stage = if self.seed_on_empty && count < ANDROID_MIN_PEER_TARGET {
                        SyncStage::SeedPeers
                    } else {
                        SyncStage::SyncHeaders
                    };
                }
            },
            SyncReply::Seeded { inserted } => {
                if self.stage == SyncStage::SeedPeers {
                    self.stage = if inserted > 0 {
                        SyncStage::SaveSeededPeers
                    } else {
                        SyncStage::SyncHeaders
                    };
                }
            },
            SyncReply::Headers { attempted, successful, accepted, failures } => {
                if self.stage == SyncStage::SyncHeaders {
                    self.status.attempted = attempted;
                    self.status.successful = successful;
                    self.status.accepted = accepted;
                    self.status.failed = failures.len();
                    self.status.failures = failures;
                    self.stage = SyncStage::ReadSyncedBest;
                    assert(self@ =~~= stepped(start, heard));
                }
            },
            SyncReply::Table { best_height, peers, peer_groups, now } => {
                if self.stage == SyncStage::ReadSyncedBest {
                    self.status.best_height = best_height;
                    self.status.best_peer_height = status::best_peer_height(&peers);
                    self.status.estimated_tip_height = status::estimated_mainnet_tip_height(now);
                    self.status.peer_count = peers.len();
                    self.status.peer_groups = peer_groups;
                    self.stage = SyncStage::OpenCacheToPrune;
                    assert(self@ =~~= stepped(start, heard));
                }
            },
            SyncReply::NoCache => match self.stage {
                SyncStage::OpenCacheToPrune => {
                    self.stage = SyncStage::OpenCacheToLimit;
                },
                SyncStage::OpenCacheToLimit => {
                    self.stage = SyncStage::OpenCacheToCount;
                },
                SyncStage::OpenCacheToCount => self.complete(0, 0),
                _ => {},
            },
            SyncReply::Removed { count } => match self.stage {
                SyncStage::PruneAnchors => self.count_removed(count, SyncStage::OpenCacheToLimit),
                SyncStage::EnforceLimit => self.count_removed(count, SyncStage::OpenCacheToCount),
                _ => {},
            },
            SyncReply::Stats { entries, value_bytes } => {
                if self.stage == SyncStage::ReadStats {
                    self.complete(entries, value_bytes);
                }
            },
        }
    }

    /// Whether there is nothing more to do.
    pub fn is_ended(&self) -> (r: bool)
        ensures
            r == (self@.stage == SyncStage::Ended),
    {
        self.stage == SyncStage::Ended
    }
}

/// What is told of a round of synchronisation.
pub fn sync_once(run: &SyncRun) -> (r: String)
    ensures
        r@ == status::status_text(run@.status),
{
    run.status.to_json()
}

/// What is known without a round of synchronisation.
#[derive(Clone, Debug, PartialEq, Eq)]
pub struct StatusFacts {
    pub best_height: Option<u32>,
    pub peers: Vec<PeerRecord>,
    pub peer_groups: usize,
    pub now: u64,
    /// What the store of values holds, if there is one.
    pub stats: Option<ResourceValueCacheStats>,
}

pub open spec fn stats_entries(stats: Option<ResourceValueCacheStats>) -> usize {
    match stats {
        Some(stats) => stats.entries,
        None => 0,
    }
}

pub open spec fn stats_bytes(stats: Option<ResourceValueCacheStats>) -> usize {
    match stats {
        Some(stats) => stats.value_bytes,
        None => 0,
    }
}

/// The status that the facts amount to.
pub open spec fn status_of(
    best_height: Option<u32>,
    peers: Seq<PeerView>,
    peer_groups: usize,
    now: u64,
    stats: Option<ResourceValueCacheStats>,
) -> StatusView {
    StatusView {
        peer_count: peers.len() as usize,
        peer_groups,
        best_height,
        best_peer_height: status::greatest_height(peers, peers.len()),
        estimated_tip_height: status::estimated_tip(now),
        resource_cache_entries: stats_entries(stats),
        resource_cache_bytes: stats_bytes(stats),
        ..status::bare_status(
            status::classified_cached(best_height, status::greatest_height(peers, peers.len())),
            None,
        )
    }
}

pub open spec fn status_of_facts(facts: StatusFacts) -> StatusView {
    status_of(
        facts.best_height,
        live_proof::peer_views(facts.peers@),
        facts.peer_groups,
        facts.now,
        facts.stats,
    )
}

pub fn read_sync_status(facts: &StatusFacts) -> (r: NativeSyncStatus)
    ensures
        r@ == status_of_facts(*facts),
{
    let best_peer = status::best_peer_height(&facts.peers);
    let mut r = NativeSyncStatus::empty();
    r.status = status::classify_cached_sync_status(facts.best_height, best_peer);
    r.peer_count = facts.peers.len();
    r.peer_groups = facts.peer_groups;
    r.best_height = facts.best_height;
    r.best_peer_height = best_peer;
    r.estimated_tip_height = status::estimated_mainnet_tip_height(facts.now);
    if let Some(stats) = &facts.stats {
        r.resource_cache_entries = stats.entries;
        r.resource_cache_bytes = stats.value_bytes;
    }
    assert(r@ =~~= status_of_facts(*facts));
    r
}

/// What is told where only what is on disk was read.
pub open spec fn told_of(facts: Result<StatusFacts, StepError>) -> StatusView {
    match facts {
        Ok(facts) => status_of_facts(facts),
        Err(error) => status::bare_status("error"@, Some(error.text())),
    }
}

pub fn sync_status(facts: &Result<StatusFacts, StepError>) -> (r: String)
    ensures
        r@ == status::status_text(told_of(*facts)),
{
    let known = match facts {
        Ok(facts) => read_sync_status(facts),
        Err(error) => NativeSyncStatus::error(error.message()),
    };
    known.to_json()
}

/// What is told after the store of values was cleared: the status as it is, or
/// nothing where it cannot be read.
pub open spec fn told_of_clearing(
    cleared: Result<(), StepError>,
    facts: Result<StatusFacts, StepError>,
) -> StatusView {
    match cleared {
        Ok(_) => {
            let known = match facts {
                Ok(facts) => status_of_facts(facts),
                Err(_) => status::bare_status("idle"@, None),
            };
            StatusView {
                status: "cleared"@,
                resource_cache_entries: 0,
                resource_cache_bytes: 0,
                resource_cache_evicted: 0,
                ..known
            }
        },
        Err(error) => status::bare_status("error"@, Some(error.text())),
    }
}

pub fn clear_resolver_cache(
    cleared: &Result<(), StepError>,
    facts: &Result<StatusFacts, StepError>,
) -> (r: String)
    ensures
        r@ == status::status_text(told_of_clearing(*cleared, *facts)),
{
    let known = match cleared {
        Ok(_) => {
            let mut known = match facts {
                Ok(facts) => read_sync_status(facts),
                Err(_) => NativeSyncStatus::empty(),
            };
            known.status = "cleared";
            known.resource_cache_entries = 0;
            known.resource_cache_bytes = 0;
            known.resource_cache_evicted = 0;
            known
        },
        Err(error) => NativeSyncStatus::error(error.message()),
    };
    assert(known@ =~~= told_of_clearing(*cleared, *facts));
    known.to_json()
}

/// A step that fails ends the round, and the status says which step it was. The
/// one exception is the search for peers.
pub proof fn law_failed_step_is_named(run: RunView, error: Seq<char>)
    requires
        run.stage != SyncStage::Ended,
        run.stage != SyncStage::ClearCache,
        run.stage != SyncStage::SeedPeers,
    ensures
        stepped(run, ReplyView::Failed { error }).stage == SyncStage::Ended,
        stepped(run, ReplyView::Failed { error }).status == status::bare_status(
            "error"@,
            Some(stage_prefix(run.stage) + error),
        ),
{
}

/// A search for peers that fails does not end the round.
pub proof fn law_failed_search_goes_on(run: RunView, error: Seq<char>)
    requires
        run.stage == SyncStage::SeedPeers,
    ensures
        stepped(run, ReplyView::Failed { error }).stage == SyncStage::SyncHeaders,
        stepped(run, ReplyView::Failed { error }).status == run.status,
{
}

/// A step's place in a round.
pub open spec fn stage_rank(stage: SyncStage) -> nat {
    match stage {
        SyncStage::CreateDirectory => 0,
        SyncStage::OpenHeaderStore => 1,
        SyncStage::ReadBest => 2,
        SyncStage::InsertGenesis => 3,
        SyncStage::OpenPeerStore => 4,
        SyncStage::LoadPeers => 5,
        SyncStage::SeedPeers => 6,
        SyncStage::SaveSeededPeers => 7,
        SyncStage::SyncHeaders => 8,
        SyncStage::ReadSyncedBest => 9,
        SyncStage::OpenCacheToPrune => 10,
        SyncStage::ReadAnchors => 11,
        SyncStage::PruneAnchors => 12,
        SyncStage::OpenCacheToLimit => 13,
        SyncStage::EnforceLimit => 14,
        SyncStage::OpenCacheToCount => 15,
        SyncStage::ReadStats => 16,
        SyncStage::ClearCache => 17,
        SyncStage::Ended => 18,
    }
}

/// A round only goes forward: no step is done twice, so that it ends.
pub proof fn law_round_goes_forward(run: RunView, reply: ReplyView)
    requires
        answers(run.stage, reply),
    ensures
        stage_rank(run.stage) < stage_rank(stepped(run, reply).stage),
{
}

/// A finished round that claims to be done has reached a peer, and neither a peer
/// that it knows of nor the estimated tip is ahead of its best header.
pub proof fn law_done_means_not_behind(run: RunView, entries: usize, value_bytes: usize)
    requires
        ({
            let told = completed(run, entries, value_bytes).status.status;
            told == "synced"@ || told == "up_to_date"@
        }),
    ensures
        ({
            let ended = completed(run, entries, value_bytes).status;
            &&& ended.successful > 0
            &&& !status::behind(ended.best_height, ended.best_peer_height)
            &&& !status::behind(ended.best_height, ended.estimated_tip_height)
        }),
{
    lemma_status_names_differ();
}

/// A finished round that reached a peer and knows its own best header is `syncing`
/// as long as a peer that it knows of, or the estimated tip, is ahead of it, also
/// where headers were accepted.
pub proof fn law_behind_means_syncing(run: RunView, entries: usize, value_bytes: usize)
    requires
        run.status.successful > 0,
        status::behind(run.status.best_height, run.status.best_peer_height) || status::behind(
            run.status.best_height,
            run.status.estimated_tip_height,
        ),
    ensures
        completed(run, entries, value_bytes).status.status == "syncing"@,
{
}

proof fn lemma_status_names_differ()
    ensures
        "syncing"@ != "synced"@,
        "syncing"@ != "up_to_date"@,
        "peer_failed"@ != "synced"@,
        "peer_failed"@ != "up_to_date"@,
        "attempted"@ != "synced"@,
        "attempted"@ != "up_to_date"@,
        "seed_failed"@ != "synced"@,
        "seed_failed"@ != "up_to_date"@,
        "idle"@ != "synced"@,
        "idle"@ != "up_to_date"@,
{
    reveal_strlit("synced");
    reveal_strlit("up_to_date");
    reveal_strlit("syncing");
    reveal_strlit("peer_failed");
    reveal_strlit("attempted");
    reveal_strlit("seed_failed");
    reveal_strlit("idle");
    assert("idle"@[0] != "synced"@[0]);
    assert("peer_failed"@[0] != "synced"@[0]);
    assert("attempted"@[0] != "synced"@[0]);
    assert("seed_failed"@[1] != "synced"@[1]);
    assert("syncing"@[4] != "synced"@[4]);
}

/// The status tells the facts: the best height, how many peers are known and what
/// the highest of them has, and how much is stored.
pub proof fn law_status_tells_the_facts(
    best_height: Option<u32>,
    peers: Seq<PeerView>,
    peer_groups: usize,
    now: u64,
    stats: ResourceValueCacheStats,
)
    requires
        peers.len() <= usize::MAX,
    ensures
        ({
            let told = status_of(best_height, peers, peer_groups, now, Some(stats));
            &&& told.best_height == best_height
            &&& told.peer_count == peers.len()
            &&& told.peer_groups == peer_groups
            &&& told.resource_cache_entries == stats.entries
            &&& told.resource_cache_bytes == stats.value_bytes
            &&& told.best_peer_height is None <==> forall|i: int|
                0 <= i < peers.len() ==> #[trigger] peers[i].last_height == 0
            &&& told.best_peer_height matches Some(height) ==> forall|i: int|
                0 <= i < peers.len() ==> #[trigger] peers[i].last_height <= height
            &&& told.error is None
            &&& told.failures.len() == 0
            &&& told.estimated_tip_height == status::estimated_tip(now)
        }),
{
    status::law_greatest_height_is_reached(peers, peers.len());
}

/// Every removed value is counted.
pub proof fn law_removed_values_are_counted(run: RunView, count: usize, stage: SyncStage)
    requires
        run.status.resource_cache_evicted + count <= usize::MAX,
    ensures
        with_removed(run, count, stage).status.resource_cache_evicted
            == run.status.resource_cache_evicted + count,
        with_removed(run, count, stage).stage == stage,
{
}

/// After the stored values were cleared none are left, and the rest of what is
/// known is told as before.
pub proof fn law_cleared_store_is_told(facts: StatusFacts)
    ensures
        ({
            let told = told_of_clearing(Ok(()), Ok(facts));
            let known = told_of(Ok(facts));
            &&& told.status == "cleared"@
            &&& told.resource_cache_entries == 0
            &&& told.resource_cache_bytes == 0
            &&& told.best_height == known.best_height
            &&& told.best_peer_height == known.best_peer_height
            &&& told.peer_count == known.peer_count
            &&& told.peer_groups == known.peer_groups
            &&& told.estimated_tip_height == known.estimated_tip_height
            &&& told.error is None
        }),
{
}

} // verus!
