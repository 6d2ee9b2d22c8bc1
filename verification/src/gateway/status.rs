//! Rounds of synchronisation as the application sees them: what is done next,
//! and what is told of it.
use crate::gateway::json;
use crate::gateway::live_proof;
use crate::gateway::live_proof::{PeerRecord, PeerView};
use crate::hash::Hash256;
use crate::sync::peer::{HeaderPeerFailure, HeaderSyncRunnerConfig};
use crate::text;
use vstd::prelude::*;
use vstd::string::*;

verus! {

pub const DEFAULT_RESOURCE_CACHE_LIMIT_BYTES: usize = 52_428_800;

pub const ANDROID_SYNC_TIMEOUT_MS: u64 = 3000;

pub const ANDROID_HEADER_SYNC_PEERS: usize = 12;

/// Enough for one peer to bring a new chain most of the way.
pub const ANDROID_HEADER_SYNC_BATCHES_PER_PEER: usize = 192;

/// With fewer peers than this, more are looked for.
pub const ANDROID_MIN_PEER_TARGET: usize = 64;

/// When the first block was made, in seconds.
pub const MAINNET_GENESIS_TIME: u64 = 1_580_745_078;

/// The time between two blocks, in seconds.
pub const MAINNET_TARGET_SPACING_SECONDS: u64 = 600;

/// How the application synchronises headers.
pub fn android_sync_config(timeout_ms: u64) -> (r: HeaderSyncRunnerConfig)
    ensures
        r.preferred_peers == ANDROID_HEADER_SYNC_PEERS,
        r.max_header_batches_per_peer == ANDROID_HEADER_SYNC_BATCHES_PER_PEER,
        r.timeout_ms == timeout_ms,
        r.discover_peers,
        forall|i: int| 0 <= i < 32 ==> r.stop@[i] == 0,
        r.malformed_ban_seconds == crate::sync::peer::DEFAULT_MALFORMED_BAN_SECONDS,
{
    HeaderSyncRunnerConfig {
        preferred_peers: ANDROID_HEADER_SYNC_PEERS,
        max_header_batches_per_peer: ANDROID_HEADER_SYNC_BATCHES_PER_PEER,
        timeout_ms,
        discover_peers: true,
        stop: Hash256 { bytes: [0u8; 32] },
        malformed_ban_seconds: crate::sync::peer::DEFAULT_MALFORMED_BAN_SECONDS,
    }
}

/// A peer is known that has more than we have.
pub open spec fn behind(best_height: Option<u32>, best_peer_height: Option<u32>) -> bool {
    best_height is Some && best_peer_height is Some && best_peer_height->0 > best_height->0
}

pub fn is_sync_behind(best_height: Option<u32>, best_peer_height: Option<u32>) -> (r: bool)
    ensures
        r == behind(best_height, best_peer_height),
{
    match (best_height, best_peer_height) {
        (Some(best), Some(peer)) => peer > best,
        _ => false,
    }
}

/// We have blocks, and do not know what peers have.
pub open spec fn target_unknown(best_height: Option<u32>, best_peer_height: Option<u32>) -> bool {
    best_height is Some && best_peer_height is None && best_height->0 > 0
}

pub fn is_sync_target_unknown(best_height: Option<u32>, best_peer_height: Option<u32>) -> (r: bool)
    ensures
        r == target_unknown(best_height, best_peer_height),
{
    match (best_height, best_peer_height) {
        (Some(best), None) => best > 0,
        _ => false,
    }
}

/// What a round of synchronisation came to.
pub open spec fn classified(
    attempted: usize,
    successful: usize,
    accepted: usize,
    failed: usize,
    seed_failed: bool,
    best_height: Option<u32>,
    best_peer_height: Option<u32>,
) -> Seq<char> {
    if successful > 0 && accepted > 0 {
        if behind(best_height, best_peer_height) || target_unknown(best_height, best_peer_height) {
            "syncing"@
        } else {
            "synced"@
        }
    } else if successful > 0 {
        if behind(best_height, best_peer_height) {
            "syncing"@
        } else {
            "up_to_date"@
        }
    } else if attempted > 0 && failed == attempted {
        "peer_failed"@
    } else if attempted > 0 {
        "attempted"@
    } else if seed_failed {
        "seed_failed"@
    } else {
        "idle"@
    }
}

pub fn classify_sync_status(
    attempted: usize,
    successful: usize,
    accepted: usize,
    failed: usize,
    seed_failed: bool,
    best_height: Option<u32>,
    best_peer_height: Option<u32>,
) -> (r: &'static str)
    ensures
        r@ == classified(
            attempted,
            successful,
            accepted,
            failed,
            seed_failed,
            best_height,
            best_peer_height,
        ),
{
    if successful > 0 && accepted > 0 {
        if is_sync_behind(best_height, best_peer_height) || is_sync_target_unknown(
            best_height,
            best_peer_height,
        ) {
            "syncing"
        } else {
            "synced"
        }
    } else if successful > 0 {
        if is_sync_behind(best_height, best_peer_height) {
            "syncing"
        } else {
            "up_to_date"
        }
    } else if attempted > 0 && failed == attempted {
        "peer_failed"
    } else if attempted > 0 {
        "attempted"
    } else if seed_failed {
        "seed_failed"
    } else {
        "idle"
    }
}

/// What is known without a round of synchronisation.
pub open spec fn classified_cached(best_height: Option<u32>, best_peer_height: Option<u32>) -> Seq<
    char,
> {
    match (best_height, best_peer_height) {
        (Some(best), Some(peer)) => if peer > best {
            "syncing"@
        } else if best > 0 {
            "up_to_date"@
        } else {
            "idle"@
        },
        (Some(best), None) => if best > 0 {
            "syncing"@
        } else {
            "idle"@
        },
        _ => "idle"@,
    }
}

pub fn classify_cached_sync_status(best_height: Option<u32>, best_peer_height: Option<u32>) -> (r:
    &'static str)
    ensures
        r@ == classified_cached(best_height, best_peer_height),
{
    match (best_height, best_peer_height) {
        (Some(best), Some(peer)) => if best > 0 && peer <= best {
            "up_to_date"
        } else if peer > best {
            "syncing"
        } else {
            "idle"
        },
        (Some(best), None) => if best > 0 {
            "syncing"
        } else {
            "idle"
        },
        _ => "idle",
    }
}

/// The greatest height that a peer is known to have, if one has any.
pub open spec fn greatest_height(peers: Seq<PeerView>, n: nat) -> Option<u32>
    decreases n,
{
    if n == 0 {
        None
    } else {
        let before = greatest_height(peers, (n - 1) as nat);
        let height = peers[n - 1].last_height;
        match before {
            Some(greatest) => if height > greatest {
                Some(height)
            } else {
                before
            },
            None => if height > 0 {
                Some(height)
            } else {
                None
            },
        }
    }
}

pub fn best_peer_height(peers: &Vec<PeerRecord>) -> (r: Option<u32>)
    ensures
        r == greatest_height(live_proof::peer_views(peers@), peers@.len()),
{
    let ghost all = live_proof::peer_views(peers@);
    let mut greatest: Option<u32> = None;
    let mut i: usize = 0;
    while i < peers.len()
        invariant
            i <= peers@.len(),
            all == live_proof::peer_views(peers@),
            greatest == greatest_height(all, i as nat),
        decreases peers@.len() - i,
    {
        assert(all[i as int] == peers@[i as int]@);
        let height: u32 = peers[i].last_height;
        match greatest {
            Some(known) => {
                if height > known {
                    greatest = Some(height);
                }
            },
            None => {
                if height > 0 {
                    greatest = Some(height);
                }
            },
        }
        i = i + 1;
    }
    greatest
}

/// No peer is higher than the greatest height, and some peer has it.
pub proof fn law_greatest_height_is_reached(peers: Seq<PeerView>, n: nat)
    requires
        n <= peers.len(),
    ensures
        match greatest_height(peers, n) {
            Some(greatest) => {
                &&& greatest > 0
                &&& exists|i: int| 0 <= i < n && #[trigger] peers[i].last_height == greatest
                &&& forall|i: int| 0 <= i < n ==> #[trigger] peers[i].last_height <= greatest
            },
            None => forall|i: int| 0 <= i < n ==> #[trigger] peers[i].last_height == 0,
        },
    decreases n,
{
    if n > 0 {
        law_greatest_height_is_reached(peers, (n - 1) as nat);
        let last = peers[n - 1].last_height;
        match greatest_height(peers, n) {
            Some(greatest) => {
                if last == greatest {
                    assert(peers[n - 1].last_height == greatest);
                } else {
                    let i = choose|i: int|
                        0 <= i < n - 1 && #[trigger] peers[i].last_height == greatest;
                    assert(peers[i].last_height == greatest);
                }
            },
            None => {},
        }
    }
}

/// How many blocks there should be by now.
pub open spec fn estimated_tip(now: u64) -> Option<u32> {
    if now < MAINNET_GENESIS_TIME || (now - MAINNET_GENESIS_TIME)
        / MAINNET_TARGET_SPACING_SECONDS as int > u32::MAX {
        None
    } else {
        Some(((now - MAINNET_GENESIS_TIME) / MAINNET_TARGET_SPACING_SECONDS as int) as u32)
    }
}

pub fn estimated_mainnet_tip_height(now: u64) -> (r: Option<u32>)
    ensures
        r == estimated_tip(now),
{
    if now < MAINNET_GENESIS_TIME {
        return None;
    }
    let height: u64 = (now - MAINNET_GENESIS_TIME) / MAINNET_TARGET_SPACING_SECONDS;
    if height > u32::MAX as u64 {
        None
    } else {
        Some(height as u32)
    }
}

/// What is told of a peer that failed.
#[derive(Clone, Debug, PartialEq, Eq)]
pub struct NativePeerFailure {
    pub address: String,
    pub stage: &'static str,
    pub error: String,
}

pub struct NativeFailureView {
    pub address: Seq<char>,
    pub stage: Seq<char>,
    pub error: Seq<char>,
}

impl View for NativePeerFailure {
    type V = NativeFailureView;

    open spec fn view(&self) -> NativeFailureView {
        NativeFailureView { address: self.address@, stage: self.stage@, error: self.error@ }
    }
}

pub open spec fn failure_views(failures: Seq<NativePeerFailure>) -> Seq<NativeFailureView> {
    Seq::new(failures.len(), |i: int| failures[i]@)
}

pub open spec fn failure_text(failure: NativeFailureView) -> Seq<char> {
    "{\"address\":\""@ + json::escaped(failure.address) + "\",\"stage\":\""@ + failure.stage
        + "\",\"error\":\""@ + json::escaped(failure.error) + "\"}"@
}

impl NativePeerFailure {
    /// The failure of the peer that is written as `address`.
    pub fn new(address: String, failure: HeaderPeerFailure) -> (r: Self)
        ensures
            r.address@ == address@,
            r.stage@ == failure.stage.text(),
            r.error@ == failure.error@,
    {
        NativePeerFailure { address, stage: failure.stage.as_str(), error: failure.error }
    }

    pub fn to_json(&self) -> (r: String)
        ensures
            r@ == failure_text(self@),
    {
        let address = json::json_escape(self.address.as_str());
        let error = json::json_escape(self.error.as_str());
        let mut out = "{\"address\":\"".to_owned();
        out.append(address.as_str());
        out.append("\",\"stage\":\"");
        out.append(self.stage);
        out.append("\",\"error\":\"");
        out.append(error.as_str());
        out.append("\"}");
        out
    }
}

/// What the application is told of synchronisation.
#[derive(Clone, Debug, PartialEq, Eq)]
pub struct NativeSyncStatus {
    pub status: &'static str,
    pub attempted: usize,
    pub successful: usize,
    pub accepted: usize,
    pub failed: usize,
    pub peer_count: usize,
    pub peer_groups: usize,
    pub best_height: Option<u32>,
    pub best_peer_height: Option<u32>,
    pub estimated_tip_height: Option<u32>,
    pub resource_cache_entries: usize,
    pub resource_cache_bytes: usize,
    pub resource_cache_evicted: usize,
    pub error: Option<String>,
    pub failures: Vec<NativePeerFailure>,
}

#[verifier::ext_equal]
pub struct StatusView {
    pub status: Seq<char>,
    pub attempted: usize,
    pub successful: usize,
    pub accepted: usize,
    pub failed: usize,
    pub peer_count: usize,
    pub peer_groups: usize,
    pub best_height: Option<u32>,
    pub best_peer_height: Option<u32>,
    pub estimated_tip_height: Option<u32>,
    pub resource_cache_entries: usize,
    pub resource_cache_bytes: usize,
    pub resource_cache_evicted: usize,
    pub error: Option<Seq<char>>,
    pub failures: Seq<NativeFailureView>,
}

pub open spec fn string_view(value: Option<String>) -> Option<Seq<char>> {
    match value {
        Some(value) => Some(value@),
        None => None,
    }
}

impl View for NativeSyncStatus {
    type V = StatusView;

    open spec fn view(&self) -> StatusView {
        StatusView {
            status: self.status@,
            attempted: self.attempted,
            successful: self.successful,
            accepted: self.accepted,
            failed: self.failed,
            peer_count: self.peer_count,
            peer_groups: self.peer_groups,
            best_height: self.best_height,
            best_peer_height: self.best_peer_height,
            estimated_tip_height: self.estimated_tip_height,
            resource_cache_entries: self.resource_cache_entries,
            resource_cache_bytes: self.resource_cache_bytes,
            resource_cache_evicted: self.resource_cache_evicted,
            error: string_view(self.error),
            failures: failure_views(self.failures@),
        }
    }
}

/// A status with nothing to tell but its name.
pub open spec fn bare_status(status: Seq<char>, error: Option<Seq<char>>) -> StatusView {
    StatusView {
        status,
        attempted: 0,
        successful: 0,
        accepted: 0,
        failed: 0,
        peer_count: 0,
        peer_groups: 0,
        best_height: None,
        best_peer_height: None,
        estimated_tip_height: None,
        resource_cache_entries: 0,
        resource_cache_bytes: 0,
        resource_cache_evicted: 0,
        error,
        failures: Seq::empty(),
    }
}

pub open spec fn failure_texts(failures: Seq<NativeFailureView>) -> Seq<Seq<char>> {
    Seq::new(failures.len(), |i: int| failure_text(failures[i]))
}

pub open spec fn status_text(v: StatusView) -> Seq<char> {
    "{\"status\":\""@ + v.status + "\",\"attempted\":"@ + text::decimal(v.attempted as nat)
        + ",\"successful\":"@ + text::decimal(v.successful as nat) + ",\"accepted\":"@
        + text::decimal(v.accepted as nat) + ",\"failed\":"@ + text::decimal(v.failed as nat)
        + ",\"peerCount\":"@ + text::decimal(v.peer_count as nat) + ",\"peerGroups\":"@
        + text::decimal(v.peer_groups as nat) + ",\"bestHeight\":"@ + json::number_or_null(
        v.best_height,
    ) + ",\"bestPeerHeight\":"@ + json::number_or_null(v.best_peer_height)
        + ",\"estimatedTipHeight\":"@ + json::number_or_null(v.estimated_tip_height)
        + ",\"resourceCacheEntries\":"@ + text::decimal(v.resource_cache_entries as nat)
        + ",\"resourceCacheBytes\":"@ + text::decimal(v.resource_cache_bytes as nat)
        + ",\"resourceCacheEvicted\":"@ + text::decimal(v.resource_cache_evicted as nat)
        + ",\"error\":"@ + json::quoted_or_null(v.error) + ",\"failures\":["@ + json::joined(
        failure_texts(v.failures),
        v.failures.len(),
    ) + "]}"@
}

impl NativeSyncStatus {
    pub fn empty() -> (r: Self)
        ensures
            r@ == bare_status("idle"@, None),
    {
        let r = NativeSyncStatus {
            status: "idle",
            attempted: 0,
            successful: 0,
            accepted: 0,
            failed: 0,
            peer_count: 0,
            peer_groups: 0,
            best_height: None,
            best_peer_height: None,
            estimated_tip_height: None,
            resource_cache_entries: 0,
            resource_cache_bytes: 0,
            resource_cache_evicted: 0,
            error: None,
            failures: Vec::new(),
        };
        assert(r@ =~= bare_status("idle"@, None));
        r
    }

    pub fn error(error: String) -> (r: Self)
        ensures
            r@ == bare_status("error"@, Some(error@)),
    {
        let ghost said = error@;
        let mut r = NativeSyncStatus::empty();
        r.status = "error";
        r.error = Some(error);
        assert(r@ =~= bare_status("error"@, Some(said)));
        r
    }

    fn failures_json(&self) -> (r: String)
        ensures
            r@ == json::joined(failure_texts(self@.failures), self@.failures.len()),
    {
        let ghost all = self@.failures;
        let mut items: Vec<String> = Vec::new();
        let mut i: usize = 0;
        assert(text::texts(items@) =~= failure_texts(all).take(0));
        while i < self.failures.len()
            invariant
                i <= self.failures@.len(),
                all == failure_views(self.failures@),
                text::texts(items@) == failure_texts(all).take(i as int),
            decreases self.failures@.len() - i,
        {
            let item = self.failures[i].to_json();
            assert(all[i as int] == self.failures@[i as int]@);
            let ghost before = text::texts(items@);
            items.push(item);
            assert(text::texts(items@) =~= before.push(item@));
            assert(failure_texts(all).take(i + 1) =~= failure_texts(all).take(i as int).push(
                failure_texts(all)[i as int],
            ));
            i = i + 1;
        }
        assert(failure_texts(all).take(i as int) =~= failure_texts(all));
        assert(text::texts(items@).len() == all.len());
        json::json_join(&items)
    }

    pub fn to_json(&self) -> (r: String)
        ensures
            r@ == status_text(self@),
    {
        let best_height = json::json_number_or_null(self.best_height);
        let best_peer_height = json::json_number_or_null(self.best_peer_height);
        let estimated_tip_height = json::json_number_or_null(self.estimated_tip_height);
        let error = match &self.error {
            Some(error) => json::json_string(error.as_str()),
            None => "null".to_owned(),
        };
        let failures = self.failures_json();
        let mut out = "{\"status\":\"".to_owned();
        out.append(self.status);
        out.append("\",\"attempted\":");
        text::push_decimal(&mut out, self.attempted as u64);
        out.append(",\"successful\":");
        text::push_decimal(&mut out, self.successful as u64);
        out.append(",\"accepted\":");
        text::push_decimal(&mut out, self.accepted as u64);
        out.append(",\"failed\":");
        text::push_decimal(&mut out, self.failed as u64);
        out.append(",\"peerCount\":");
        text::push_decimal(&mut out, self.peer_count as u64);
        out.append(",\"peerGroups\":");
        text::push_decimal(&mut out, self.peer_groups as u64);
        out.append(",\"bestHeight\":");
        out.append(best_height.as_str());
        out.append(",\"bestPeerHeight\":");
        out.append(best_peer_height.as_str());
        out.append(",\"estimatedTipHeight\":");
        out.append(estimated_tip_height.as_str());
        out.append(",\"resourceCacheEntries\":");
        text::push_decimal(&mut out, self.resource_cache_entries as u64);
        out.append(",\"resourceCacheBytes\":");
        text::push_decimal(&mut out, self.resource_cache_bytes as u64);
        out.append(",\"resourceCacheEvicted\":");
        text::push_decimal(&mut out, self.resource_cache_evicted as u64);
        out.append(",\"error\":");
        out.append(error.as_str());
        out.append(",\"failures\":[");
        out.append(failures.as_str());
        out.append("]}");
        out
    }
}

/// Without a network, only a chain with more than its first block, and with no
/// known peer ahead of it, counts as up to date.
pub proof fn law_cached_status_is_not_too_good(
    best_height: Option<u32>,
    best_peer_height: Option<u32>,
)
    ensures
        classified_cached(best_height, best_peer_height) == "up_to_date"@ <==> best_height is Some
            && best_height->0 > 0 && best_peer_height is Some && best_peer_height->0
            <= best_height->0,
{
    reveal_strlit("up_to_date");
    reveal_strlit("syncing");
    reveal_strlit("idle");
    assert("syncing"@.len() != "up_to_date"@.len());
    assert("idle"@.len() != "up_to_date"@.len());
}

/// A round without progress tells peers that had nothing new from peers that all
/// failed.
pub proof fn law_failure_is_told_from_no_news(
    attempted: usize,
    successful: usize,
    accepted: usize,
    failed: usize,
    seed_failed: bool,
    best_height: Option<u32>,
    best_peer_height: Option<u32>,
)
    ensures
        classified(
            attempted,
            successful,
            accepted,
            failed,
            seed_failed,
            best_height,
            best_peer_height,
        ) == "peer_failed"@ <==> successful == 0 && attempted > 0 && failed == attempted,
{
    reveal_strlit("peer_failed");
    reveal_strlit("up_to_date");
    reveal_strlit("syncing");
    reveal_strlit("synced");
    reveal_strlit("attempted");
    reveal_strlit("seed_failed");
    reveal_strlit("idle");
    assert("up_to_date"@.len() != "peer_failed"@.len());
    assert("syncing"@.len() != "peer_failed"@.len());
    assert("synced"@.len() != "peer_failed"@.len());
    assert("attempted"@.len() != "peer_failed"@.len());
    assert("idle"@.len() != "peer_failed"@.len());
    assert("seed_failed"@[0] != "peer_failed"@[0]);
}

/// The estimate of the tip's height: a block every ten minutes since the first one,
/// on 3 February 2020. There is none for a time before it.
pub proof fn law_tip_is_a_block_every_ten_minutes(now: u64, height: u32)
    ensures
        estimated_tip(now) == Some(height) <==> 1_580_745_078 + 600 * height <= now < 1_580_745_078
            + 600 * (height + 1),
        estimated_tip(now) is None ==> now < 1_580_745_078 || now >= 1_580_745_078 + 600 * (u32::MAX
            + 1),
{
}

/// Every part of a status is told under its own name.
#[verifier::rlimit(60)]
pub proof fn law_status_tells_each_of_its_parts(v: StatusView)
    ensures
        text::contains_text(status_text(v), "{\"status\":\""@ + v.status),
        text::contains_text(
            status_text(v),
            "\",\"attempted\":"@ + text::decimal(v.attempted as nat),
        ),
        text::contains_text(
            status_text(v),
            ",\"successful\":"@ + text::decimal(v.successful as nat),
        ),
        text::contains_text(status_text(v), ",\"accepted\":"@ + text::decimal(v.accepted as nat)),
        text::contains_text(status_text(v), ",\"failed\":"@ + text::decimal(v.failed as nat)),
        text::contains_text(
            status_text(v),
            ",\"peerCount\":"@ + text::decimal(v.peer_count as nat),
        ),
        text::contains_text(
            status_text(v),
            ",\"peerGroups\":"@ + text::decimal(v.peer_groups as nat),
        ),
        text::contains_text(
            status_text(v),
            ",\"bestHeight\":"@ + json::number_or_null(v.best_height),
        ),
        text::contains_text(
            status_text(v),
            ",\"bestPeerHeight\":"@ + json::number_or_null(v.best_peer_height),
        ),
        text::contains_text(
            status_text(v),
            ",\"estimatedTipHeight\":"@ + json::number_or_null(v.estimated_tip_height),
        ),
        text::contains_text(
            status_text(v),
            ",\"resourceCacheEntries\":"@ + text::decimal(v.resource_cache_entries as nat),
        ),
        text::contains_text(
            status_text(v),
            ",\"resourceCacheBytes\":"@ + text::decimal(v.resource_cache_bytes as nat),
        ),
        text::contains_text(
            status_text(v),
            ",\"resourceCacheEvicted\":"@ + text::decimal(v.resource_cache_evicted as nat),
        ),
        text::contains_text(status_text(v), ",\"error\":"@ + json::quoted_or_null(v.error)),
        text::contains_text(
            status_text(v),
            ",\"failures\":["@ + json::joined(failure_texts(v.failures), v.failures.len()),
        ),
{
    let pieces = seq![
        "{\"status\":\""@,
        v.status,
        "\",\"attempted\":"@,
        text::decimal(v.attempted as nat),
        ",\"successful\":"@,
        text::decimal(v.successful as nat),
        ",\"accepted\":"@,
        text::decimal(v.accepted as nat),
        ",\"failed\":"@,
        text::decimal(v.failed as nat),
        ",\"peerCount\":"@,
        text::decimal(v.peer_count as nat),
        ",\"peerGroups\":"@,
        text::decimal(v.peer_groups as nat),
        ",\"bestHeight\":"@,
        json::number_or_null(v.best_height),
        ",\"bestPeerHeight\":"@,
        json::number_or_null(v.best_peer_height),
        ",\"estimatedTipHeight\":"@,
        json::number_or_null(v.estimated_tip_height),
        ",\"resourceCacheEntries\":"@,
        text::decimal(v.resource_cache_entries as nat),
        ",\"resourceCacheBytes\":"@,
        text::decimal(v.resource_cache_bytes as nat),
        ",\"resourceCacheEvicted\":"@,
        text::decimal(v.resource_cache_evicted as nat),
        ",\"error\":"@,
        json::quoted_or_null(v.error),
        ",\"failures\":["@,
        json::joined(failure_texts(v.failures), v.failures.len()),
        "]}"@,
    ];
    reveal_with_fuel(json::chained, 32);
    assert(status_text(v) == json::chained(pieces, 31));
    json::lemma_chain_holds(pieces, 31, 0);
    json::lemma_chain_holds(pieces, 31, 2);
    json::lemma_chain_holds(pieces, 31, 4);
    json::lemma_chain_holds(pieces, 31, 6);
    json::lemma_chain_holds(pieces, 31, 8);
    json::lemma_chain_holds(pieces, 31, 10);
    json::lemma_chain_holds(pieces, 31, 12);
    json::lemma_chain_holds(pieces, 31, 14);
    json::lemma_chain_holds(pieces, 31, 16);
    json::lemma_chain_holds(pieces, 31, 18);
    json::lemma_chain_holds(pieces, 31, 20);
    json::lemma_chain_holds(pieces, 31, 22);
    json::lemma_chain_holds(pieces, 31, 24);
    json::lemma_chain_holds(pieces, 31, 26);
    json::lemma_chain_holds(pieces, 31, 28);
}

/// Every part of a failure is told under its own name.
#[verifier::rlimit(60)]
pub proof fn law_failure_tells_each_of_its_parts(failure: NativeFailureView)
    ensures
        text::contains_text(
            failure_text(failure),
            "{\"address\":\""@ + json::escaped(failure.address),
        ),
        text::contains_text(failure_text(failure), "\",\"stage\":\""@ + failure.stage),
        text::contains_text(
            failure_text(failure),
            "\",\"error\":\""@ + json::escaped(failure.error),
        ),
{
    let pieces = seq![
        "{\"address\":\""@,
        json::escaped(failure.address),
        "\",\"stage\":\""@,
        failure.stage,
        "\",\"error\":\""@,
        json::escaped(failure.error),
        "\"}"@,
    ];
    reveal_with_fuel(json::chained, 8);
    assert(failure_text(failure) == json::chained(pieces, 7));
    json::lemma_chain_holds(pieces, 7, 0);
    json::lemma_chain_holds(pieces, 7, 2);
    json::lemma_chain_holds(pieces, 7, 4);
}

} // verus!
