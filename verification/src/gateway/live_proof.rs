//! Proofs for the gateway: from the table of verified values, or from peers.
use crate::dns;
use crate::dns::{AddressView, ServerAddress};
use crate::error::ResolverError;
use crate::gateway::proof_details;
use crate::gateway::proof_details::{ChainTip, TipView};
use crate::hash::{Hash256, NameHash};
use crate::proven;
use crate::proven::{
    AnchorView, HnsResourceValueProvider, ProvenNameRecords, ProvenView, ResourceValueAnchor,
    ValueView, VerifiedResourceValue,
};
use crate::store;
use crate::store::{RowView, SqliteResourceValueProvider};
use crate::sync::error::SyncError;
use crate::sync::peer::{EventView, PeerEvent};
use crate::text;
use vstd::prelude::*;
use vstd::string::*;

verus! {

pub const DEFAULT_GATEWAY_PROOF_PEERS: usize = 8;

pub const DEFAULT_GATEWAY_PROOF_TIMEOUT_MS: u64 = 3000;

/// How many blocks back a value may have been proven.
pub const RESOURCE_PROOF_CACHE_CANONICAL_WINDOW: u32 = 144;

/// The best chain: its height, and the tree roots of its blocks as far as they
/// are known.
#[derive(Clone, Debug, PartialEq, Eq)]
pub struct CanonicalChain {
    pub best_height: Option<u32>,
    pub roots: Vec<ResourceValueAnchor>,
}

/// Whether a value was proven against a recent block of the best chain.
pub open spec fn is_recent_canonical(
    anchor: Option<AnchorView>,
    best_height: Option<u32>,
    roots: Seq<AnchorView>,
) -> bool {
    match (anchor, best_height) {
        (Some(anchor), Some(best)) => 0 < anchor.height <= best && best - anchor.height
            <= RESOURCE_PROOF_CACHE_CANONICAL_WINDOW && roots.contains(anchor),
        _ => false,
    }
}

pub fn anchor_is_recent_canonical(anchor: Option<ResourceValueAnchor>, chain: &CanonicalChain) -> (r:
    bool)
    ensures
        r == is_recent_canonical(
            proven::anchor_view(anchor),
            chain.best_height,
            store::anchor_views(chain.roots@),
        ),
{
    match (anchor, chain.best_height) {
        (Some(anchor), Some(best)) => anchor.height > 0 && anchor.height <= best && best
            - anchor.height <= RESOURCE_PROOF_CACHE_CANONICAL_WINDOW && store::has_anchor(
            &chain.roots,
            &anchor,
        ),
        _ => false,
    }
}

/// The value of a name in the table, if it is what it should be.
pub open spec fn cached_value_of(rows: Seq<RowView>, root_name: Seq<char>, name_hash: Seq<u8>) -> Result<
    ValueView,
    ResolverError,
> {
    match store::stored_value(rows, root_name, name_hash) {
        Err(error) => Err(error),
        Ok(value) => if value.root_name != root_name || value.name_hash != name_hash
            || !value.secure {
            Err(ResolverError::ProofNameMismatch)
        } else {
            Ok(value)
        },
    }
}

pub fn cached_value(values: &mut SqliteResourceValueProvider, root_name: &str, name_hash: NameHash) -> (r:
    Result<VerifiedResourceValue, ResolverError>)
    ensures
        final(values)@ == old(values)@,
        proven::value_reply(r) == cached_value_of(old(values)@, root_name@, name_hash@),
{
    match values.prove_resource_value(root_name, name_hash) {
        Ok(value) => if !text::same_text(value.root_name.as_str(), root_name)
            || !value.name_hash.same(&name_hash) || !value.secure {
            Err(ResolverError::ProofNameMismatch)
        } else {
            Ok(value)
        },
        Err(error) => Err(error),
    }
}

/// The records that a value proves, if it is still of use.
pub open spec fn records_of_cached(
    value: ValueView,
    best_height: Option<u32>,
    roots: Seq<AnchorView>,
) -> Result<ProvenView, ResolverError> {
    if is_recent_canonical(value.anchor, best_height, roots) {
        proven::proven_from(value)
    } else {
        Err(ResolverError::ProofUnavailable)
    }
}

pub fn cached_records(value: VerifiedResourceValue, chain: &CanonicalChain) -> (r: Result<
    ProvenNameRecords,
    ResolverError,
>)
    ensures
        proven::proven_reply(r) == records_of_cached(
            value@,
            chain.best_height,
            store::anchor_views(chain.roots@),
        ),
{
    if !anchor_is_recent_canonical(value.anchor, chain) {
        return Err(ResolverError::ProofUnavailable);
    }
    ProvenNameRecords::from_verified_resource_value(value)
}

/// Whether a peer is to be asked for a proof: only where there is none.
pub fn needs_live_proof(first: &Result<ProvenNameRecords, ResolverError>) -> (r: bool)
    ensures
        r == (*first matches Err(error) && error == ResolverError::ProofUnavailable),
{
    match first {
        Err(ResolverError::ProofUnavailable) => true,
        _ => false,
    }
}

/// The tip that proofs are asked for under: the genesis block has none.
pub open spec fn proof_tip(tip: Option<TipView>) -> Result<TipView, ResolverError> {
    match tip {
        Some(tip) => if tip.height == 0 {
            Err(ResolverError::ProofUnavailable)
        } else {
            Ok(tip)
        },
        None => Err(ResolverError::ProofUnavailable),
    }
}

pub fn best_synced_header(tip: Option<ChainTip>) -> (r: Result<ChainTip, ResolverError>)
    ensures
        match r {
            Ok(tip_found) => proof_tip(proof_details::tip_view(tip)) == Ok::<
                _,
                ResolverError,
            >(tip_found@),
            Err(error) => proof_tip(proof_details::tip_view(tip)) == Err::<
                TipView,
                _,
            >(error),
        },
{
    match tip {
        Some(tip) => if tip.height == 0 {
            Err(ResolverError::ProofUnavailable)
        } else {
            Ok(tip)
        },
        None => Err(ResolverError::ProofUnavailable),
    }
}

/// What the peer table knows of a peer.
#[derive(Clone, Debug, PartialEq, Eq)]
pub struct PeerRecord {
    pub address: ServerAddress,
    pub score: i64,
    pub last_height: u32,
    pub banned: bool,
}

pub struct PeerView {
    pub address: AddressView,
    pub score: i64,
    pub last_height: u32,
    pub banned: bool,
}

impl View for PeerRecord {
    type V = PeerView;

    open spec fn view(&self) -> PeerView {
        PeerView {
            address: self.address@,
            score: self.score,
            last_height: self.last_height,
            banned: self.banned,
        }
    }
}

pub open spec fn peer_views(peers: Seq<PeerRecord>) -> Seq<PeerView> {
    Seq::new(peers.len(), |i: int| peers[i]@)
}

impl PeerRecord {
    fn copy(&self) -> (r: PeerRecord)
        ensures
            r@ == self@,
    {
        PeerRecord {
            address: self.address.copy(),
            score: self.score,
            last_height: self.last_height,
            banned: self.banned,
        }
    }
}

/// The order of addresses: the shorter family first, then by bytes, then by
/// port.
pub open spec fn address_before(a: AddressView, b: AddressView) -> bool {
    if a.ip.len() != b.ip.len() {
        a.ip.len() < b.ip.len()
    } else if a.ip != b.ip {
        store::bytes_before(a.ip, b.ip)
    } else {
        a.port < b.port
    }
}

fn address_is_before(a: &ServerAddress, b: &ServerAddress) -> (r: bool)
    ensures
        r == address_before(a@, b@),
{
    if a.ip.len() != b.ip.len() {
        return a.ip.len() < b.ip.len();
    }
    let mut i: usize = 0;
    assert(a.ip@.skip(0) =~= a.ip@);
    assert(b.ip@.skip(0) =~= b.ip@);
    while i < a.ip.len()
        invariant
            i <= a.ip@.len(),
            a.ip@.len() == b.ip@.len(),
            forall|j: int| 0 <= j < i ==> a.ip@[j] == b.ip@[j],
            store::bytes_before(a.ip@, b.ip@) == store::bytes_before(
                a.ip@.skip(i as int),
                b.ip@.skip(i as int),
            ),
        decreases a.ip@.len() - i,
    {
        assert(a.ip@.skip(i as int).skip(1) =~= a.ip@.skip(i + 1));
        assert(b.ip@.skip(i as int).skip(1) =~= b.ip@.skip(i + 1));
        if a.ip[i] != b.ip[i] {
            return a.ip[i] < b.ip[i];
        }
        i = i + 1;
    }
    assert(a.ip@ =~= b.ip@);
    a.port < b.port
}

/// Which of two peers is asked first: the one with the lower score, then the
/// higher one, then by address.
pub open spec fn asked_before(a: PeerView, b: PeerView) -> bool {
    if a.score != b.score {
        a.score < b.score
    } else if a.last_height != b.last_height {
        a.last_height > b.last_height
    } else {
        address_before(a.address, b.address)
    }
}

fn is_asked_before(a: &PeerRecord, b: &PeerRecord) -> (r: bool)
    ensures
        r == asked_before(a@, b@),
{
    if a.score != b.score {
        a.score < b.score
    } else if a.last_height != b.last_height {
        a.last_height > b.last_height
    } else {
        address_is_before(&a.address, &b.address)
    }
}

/// A peer put into its place; after those that it does not come before.
pub open spec fn ranked_in(sorted: Seq<PeerView>, peer: PeerView) -> Seq<PeerView>
    decreases sorted.len(),
{
    if sorted.len() > 0 && asked_before(peer, sorted.last()) {
        ranked_in(sorted.drop_last(), peer).push(sorted.last())
    } else {
        sorted.push(peer)
    }
}

/// A peer that can be asked for a proof at a height.
pub open spec fn can_prove(peer: PeerView, proof_height: u32) -> bool {
    !peer.banned && peer.last_height >= proof_height
}

/// Those of the first `n` peers that can be asked, in the order in which they
/// are.
pub open spec fn ranked(peers: Seq<PeerView>, n: nat, proof_height: u32) -> Seq<PeerView>
    decreases n,
{
    if n == 0 {
        Seq::empty()
    } else {
        let before = ranked(peers, (n - 1) as nat, proof_height);
        if can_prove(peers[n - 1], proof_height) {
            ranked_in(before, peers[n - 1])
        } else {
            before
        }
    }
}

fn rank(sorted: &mut Vec<PeerRecord>, peer: PeerRecord)
    ensures
        peer_views(final(sorted)@) == ranked_in(peer_views(old(sorted)@), peer@),
    decreases old(sorted)@.len(),
{
    let ghost before = peer_views(sorted@);
    let n: usize = sorted.len();
    let goes_before = if n > 0 {
        assert(before.last() == sorted@[n - 1]@);
        is_asked_before(&peer, &sorted[n - 1])
    } else {
        false
    };
    if goes_before {
        if let Some(last) = sorted.pop() {
            let ghost kept = last@;
            assert(peer_views(sorted@) =~= before.drop_last());
            rank(sorted, peer);
            let ghost inner = peer_views(sorted@);
            sorted.push(last);
            assert(peer_views(sorted@) =~= inner.push(kept));
        }
    } else {
        let ghost seen = peer@;
        sorted.push(peer);
        assert(peer_views(sorted@) =~= before.push(seen));
    }
}

/// The peers to ask for a proof at a height, at most `preferred_count`.
pub open spec fn selected(peers: Seq<PeerView>, preferred_count: nat, proof_height: u32) -> Seq<
    AddressView,
> {
    let all = ranked(peers, peers.len(), proof_height);
    let count = if preferred_count < all.len() {
        preferred_count
    } else {
        all.len()
    };
    Seq::new(count, |i: int| all[i].address)
}

pub fn select_live_proof_peers(
    peers: &Vec<PeerRecord>,
    preferred_count: usize,
    proof_height: u32,
) -> (r: Vec<ServerAddress>)
    ensures
        dns::address_views(r@) == selected(
            peer_views(peers@),
            preferred_count as nat,
            proof_height,
        ),
{
    let ghost all = peer_views(peers@);
    let mut sorted: Vec<PeerRecord> = Vec::new();
    let mut i: usize = 0;
    assert(peer_views(sorted@) =~= Seq::empty());
    while i < peers.len()
        invariant
            i <= peers@.len(),
            all == peer_views(peers@),
            peer_views(sorted@) == ranked(all, i as nat, proof_height),
        decreases peers@.len() - i,
    {
        assert(all[i as int] == peers@[i as int]@);
        if !peers[i].banned && peers[i].last_height >= proof_height {
            rank(&mut sorted, peers[i].copy());
        }
        i = i + 1;
    }
    assert(all.len() == peers@.len());
    let ghost order = ranked(all, all.len(), proof_height);
    assert(order.len() == sorted@.len());
    let count: usize = if preferred_count < sorted.len() {
        preferred_count
    } else {
        sorted.len()
    };
    let mut out: Vec<ServerAddress> = Vec::new();
    let mut k: usize = 0;
    assert(dns::address_views(out@) =~= Seq::new(0, |j: int| order[j].address));
    while k < count
        invariant
            k <= count <= sorted@.len(),
            peer_views(sorted@) == order,
            dns::address_views(out@) == Seq::new(k as nat, |j: int| order[j].address),
        decreases count - k,
    {
        assert(order[k as int] == sorted@[k as int]@);
        let ghost before = dns::address_views(out@);
        let address = sorted[k].address.copy();
        assert(address@ == order[k as int].address);
        out.push(address);
        assert(dns::address_views(out@) =~= before.push(address@));
        assert(dns::address_views(out@) =~= Seq::new((k + 1) as nat, |j: int| order[j].address));
        k = k + 1;
    }
    out
}

proof fn lemma_ranked_in(sorted: Seq<PeerView>, peer: PeerView)
    ensures
        forall|i: int|
            0 <= i < ranked_in(sorted, peer).len() ==> (#[trigger] ranked_in(sorted, peer)[i]
                == peer || sorted.contains(ranked_in(sorted, peer)[i])),
    decreases sorted.len(),
{
    let r = ranked_in(sorted, peer);
    if sorted.len() > 0 && asked_before(peer, sorted.last()) {
        let front = sorted.drop_last();
        lemma_ranked_in(front, peer);
        let inner = ranked_in(front, peer);
        assert forall|i: int| 0 <= i < r.len() implies (#[trigger] r[i] == peer
            || sorted.contains(r[i])) by {
            if i < inner.len() {
                assert(r[i] == inner[i]);
                if inner[i] != peer {
                    let k = choose|k: int| 0 <= k < front.len() && front[k] == inner[i];
                    assert(sorted[k] == r[i]);
                }
            } else {
                assert(r[i] == sorted[sorted.len() - 1]);
            }
        }
    } else {
        assert forall|i: int| 0 <= i < r.len() implies (#[trigger] r[i] == peer
            || sorted.contains(r[i])) by {
            if i < sorted.len() {
                assert(r[i] == sorted[i]);
            }
        }
    }
}

/// No peer is asked for a proof that is banned or does not know the block.
pub proof fn law_asked_peers_can_prove(peers: Seq<PeerView>, n: nat, proof_height: u32)
    requires
        n <= peers.len(),
    ensures
        forall|i: int|
            0 <= i < ranked(peers, n, proof_height).len() ==> can_prove(
                #[trigger] ranked(peers, n, proof_height)[i],
                proof_height,
            ),
    decreases n,
{
    if n > 0 {
        law_asked_peers_can_prove(peers, (n - 1) as nat, proof_height);
        let before = ranked(peers, (n - 1) as nat, proof_height);
        let after = ranked(peers, n, proof_height);
        if can_prove(peers[n - 1], proof_height) {
            lemma_ranked_in(before, peers[n - 1]);
            assert forall|i: int| 0 <= i < after.len() implies can_prove(
                #[trigger] after[i],
                proof_height,
            ) by {
                if after[i] != peers[n - 1] {
                    let k = choose|k: int| 0 <= k < before.len() && before[k] == after[i];
                    assert(can_prove(before[k], proof_height));
                }
            }
        }
    }
}

/// What a peer's reply says of it.
pub open spec fn reply_event(address: AddressView, now: u64, outcome: Result<u32, SyncError>) -> EventView {
    match outcome {
        Ok(height) => EventView::Success { address, height, now },
        Err(_) => EventView::TransientFailure { address },
    }
}

/// Asking peers for a proof, one after the other, until one has sent it and it
/// is stored.
#[derive(Clone, Debug, PartialEq, Eq)]
pub struct LiveProofFetch {
    pub peers: Vec<ServerAddress>,
    pub asked: usize,
    pub stored: bool,
}

#[verifier::ext_equal]
pub struct FetchView {
    pub peers: Seq<AddressView>,
    pub asked: nat,
    pub stored: bool,
}

impl View for LiveProofFetch {
    type V = FetchView;

    open spec fn view(&self) -> FetchView {
        FetchView {
            peers: dns::address_views(self.peers@),
            asked: self.asked as nat,
            stored: self.stored,
        }
    }
}

/// How a fetch has ended, if it has: well once a proof is stored, and without a
/// proof when no peer is left.
pub open spec fn fetch_result(fetch: FetchView) -> Option<Result<(), ResolverError>> {
    if fetch.stored {
        Some(Ok(()))
    } else if fetch.asked >= fetch.peers.len() {
        Some(Err(ResolverError::ProofUnavailable))
    } else {
        None
    }
}

/// A fetch after the outcomes of its next peers, as far as they are needed.
pub open spec fn fetched(fetch: FetchView, outcomes: Seq<Result<u32, SyncError>>, n: nat) -> FetchView
    decreases n,
{
    if n == 0 {
        fetch
    } else {
        let before = fetched(fetch, outcomes, (n - 1) as nat);
        if fetch_result(before) is Some {
            before
        } else {
            FetchView { asked: before.asked + 1, stored: outcomes[n - 1] is Ok, ..before }
        }
    }
}

impl LiveProofFetch {
    /// Selects the peers to ask for a proof under `tip`.
    pub fn new(peers: &Vec<PeerRecord>, preferred_count: usize, tip: &ChainTip) -> (r: Self)
        ensures
            r@ == (FetchView {
                peers: selected(peer_views(peers@), preferred_count as nat, tip.height),
                asked: 0,
                stored: false,
            }),
    {
        LiveProofFetch {
            peers: select_live_proof_peers(peers, preferred_count, tip.height),
            asked: 0,
            stored: false,
        }
    }

    pub fn result(&self) -> (r: Option<Result<(), ResolverError>>)
        ensures
            r == fetch_result(self@),
    {
        if self.stored {
            Some(Ok(()))
        } else if self.asked >= self.peers.len() {
            Some(Err(ResolverError::ProofUnavailable))
        } else {
            None
        }
    }

    /// The peer to ask next, where the fetch goes on.
    pub fn next_peer(&self) -> (r: Option<&ServerAddress>)
        ensures
            match r {
                Some(address) => fetch_result(self@) is None && address@
                    == self@.peers[self@.asked as int],
                None => fetch_result(self@) is Some,
            },
    {
        if self.stored || self.asked >= self.peers.len() {
            None
        } else {
            Some(&self.peers[self.asked])
        }
    }

    /// Takes the outcome of asking that peer, and gives what is to be noted of
    /// it. Where the fetch has ended nothing was asked, and nothing is noted.
    pub fn on_outcome(&mut self, now: u64, outcome: &Result<u32, SyncError>) -> (r: Option<
        PeerEvent,
    >)
        ensures
            final(self)@ == fetched(old(self)@, seq![*outcome], 1),
            match r {
                Some(event) => fetch_result(old(self)@) is None && event@ == reply_event(
                    old(self)@.peers[old(self)@.asked as int],
                    now,
                    *outcome,
                ),
                None => fetch_result(old(self)@) is Some,
            },
    {
        reveal_with_fuel(fetched, 2);
        if self.stored || self.asked >= self.peers.len() {
            return None;
        }
        let address = self.peers[self.asked].copy();
        self.asked = self.asked + 1;
        match outcome {
            Ok(height) => {
                self.stored = true;
                Some(PeerEvent::Success { address, height: *height, now })
            },
            Err(_) => Some(PeerEvent::TransientFailure { address }),
        }
    }
}

/// No more is asked of peers once a proof is stored, and a fetch from `n` peers
/// has ended after `n` outcomes. It ends well just where one of the outcomes was
/// a proof.
pub proof fn law_fetch_ends_with_the_first_proof(
    peers: Seq<AddressView>,
    outcomes: Seq<Result<u32, SyncError>>,
    n: nat,
)
    requires
        n <= outcomes.len(),
        n <= peers.len(),
    ensures
        ({
            let start = FetchView { peers, asked: 0, stored: false };
            let end = fetched(start, outcomes, n);
            &&& end.peers == peers
            &&& end.asked <= n
            &&& end.stored <==> exists|i: int| 0 <= i < n && #[trigger] outcomes[i] is Ok
            &&& end.stored ==> end.asked > 0 && outcomes[end.asked - 1] is Ok && forall|i: int|
                0 <= i < end.asked - 1 ==> #[trigger] outcomes[i] is Err
            &&& !end.stored ==> end.asked == n
            &&& n == peers.len() ==> fetch_result(end) == (if exists|i: int|
                0 <= i < n && #[trigger] outcomes[i] is Ok {
                Some(Ok::<(), ResolverError>(()))
            } else {
                Some(Err::<(), _>(ResolverError::ProofUnavailable))
            })
        }),
    decreases n,
{
    if n > 0 {
        law_fetch_ends_with_the_first_proof(peers, outcomes, (n - 1) as nat);
        let start = FetchView { peers, asked: 0, stored: false };
        let before = fetched(start, outcomes, (n - 1) as nat);
        let end = fetched(start, outcomes, n);
        if before.stored {
            assert(end == before);
            let i = choose|i: int| 0 <= i < n - 1 && #[trigger] outcomes[i] is Ok;
            assert(outcomes[i] is Ok);
        } else {
            assert(before.asked == n - 1);
            if outcomes[n - 1] is Ok {
                assert(end.stored);
            }
            assert forall|i: int| 0 <= i < n - 1 implies #[trigger] outcomes[i] is Err by {
                if outcomes[i] is Ok {
                    assert(before.stored);
                }
            }
        }
    }
}

/// Whether a peer that has shaken hands can be asked: it must know the block.
pub fn check_remote_height(remote_height: u32, proof_height: u32) -> (r: Result<(), SyncError>)
    ensures
        r == (if remote_height < proof_height {
            Err(SyncError::UnexpectedAction)
        } else {
            Ok(())
        }),
{
    if remote_height < proof_height {
        Err(SyncError::UnexpectedAction)
    } else {
        Ok(())
    }
}

/// The first height whose block still counts, for a chain of a given height.
pub open spec fn first_recent(best: u32) -> u32 {
    if best <= RESOURCE_PROOF_CACHE_CANONICAL_WINDOW + 1 {
        1
    } else {
        (best - RESOURCE_PROOF_CACHE_CANONICAL_WINDOW) as u32
    }
}

/// The anchors among the first `n` heights from the first recent one, where
/// `root` gives a block's tree root.
pub open spec fn anchors_from(first: u32, roots: Seq<Option<Seq<u8>>>, n: nat) -> Seq<AnchorView>
    decreases n,
{
    if n == 0 {
        Seq::empty()
    } else {
        let before = anchors_from(first, roots, (n - 1) as nat);
        match roots[n - 1] {
            Some(tree_root) => before.push(
                AnchorView { tree_root, height: (first + n - 1) as u32 },
            ),
            None => before,
        }
    }
}

/// The heights whose tree roots are needed: from the first recent block to the
/// best one. The chain must have more than its first block.
pub fn recent_heights(best_height: Option<u32>) -> (r: Option<(u32, u32)>)
    ensures
        r == (match best_height {
            Some(best) => if best == 0 {
                None
            } else {
                Some((first_recent(best), best))
            },
            None => None,
        }),
{
    match best_height {
        Some(best) => if best == 0 {
            None
        } else if best <= RESOURCE_PROOF_CACHE_CANONICAL_WINDOW + 1 {
            Some((1, best))
        } else {
            Some((best - RESOURCE_PROOF_CACHE_CANONICAL_WINDOW, best))
        },
        None => None,
    }
}

pub open spec fn root_views(roots: Seq<Option<Hash256>>) -> Seq<Option<Seq<u8>>> {
    Seq::new(
        roots.len(),
        |i: int|
            match roots[i] {
                Some(root) => Some(root@),
                None => None,
            },
    )
}

/// The anchors of the recent blocks, where `roots` holds the tree root of each
/// height from `first` on.
pub fn recent_canonical_resource_anchors(first: u32, roots: &Vec<Option<Hash256>>) -> (r: Vec<
    ResourceValueAnchor,
>)
    requires
        first + roots@.len() <= u32::MAX + 1,
    ensures
        store::anchor_views(r@) == anchors_from(first, root_views(roots@), roots@.len()),
{
    let ghost all = root_views(roots@);
    let mut anchors: Vec<ResourceValueAnchor> = Vec::new();
    let mut i: usize = 0;
    assert(store::anchor_views(anchors@) =~= Seq::empty());
    while i < roots.len()
        invariant
            i <= roots@.len(),
            first + roots@.len() <= u32::MAX + 1,
            all == root_views(roots@),
            store::anchor_views(anchors@) == anchors_from(first, all, i as nat),
        decreases roots@.len() - i,
    {
        if let Some(tree_root) = roots[i] {
            let ghost before = store::anchor_views(anchors@);
            let anchor = ResourceValueAnchor { tree_root, height: first + i as u32 };
            anchors.push(anchor);
            assert(store::anchor_views(anchors@) =~= before.push(anchor@));
        }
        i = i + 1;
    }
    anchors
}

/// A value that counts as recent has its anchor among the anchors of the recent
/// blocks.
pub proof fn law_recent_values_survive_pruning(
    anchor: AnchorView,
    best: u32,
    roots: Seq<Option<Seq<u8>>>,
)
    requires
        0 < anchor.height <= best,
        best - anchor.height <= RESOURCE_PROOF_CACHE_CANONICAL_WINDOW,
        roots.len() == best - first_recent(best) + 1,
        roots[anchor.height - first_recent(best)] == Some(anchor.tree_root),
    ensures
        anchors_from(first_recent(best), roots, roots.len()).contains(anchor),
{
    lemma_anchor_is_listed(
        anchor,
        first_recent(best),
        roots,
        roots.len(),
        anchor.height - first_recent(best),
    );
}

proof fn lemma_anchor_is_listed(
    anchor: AnchorView,
    first: u32,
    roots: Seq<Option<Seq<u8>>>,
    n: nat,
    at: int,
)
    requires
        0 <= at < n <= roots.len(),
        first + roots.len() <= u32::MAX + 1,
        anchor.height == first + at,
        roots[at] == Some(anchor.tree_root),
    ensures
        anchors_from(first, roots, n).contains(anchor),
    decreases n,
{
    let all = anchors_from(first, roots, n);
    let before = anchors_from(first, roots, (n - 1) as nat);
    if at == n - 1 {
        assert(all[before.len() as int] == anchor);
    } else {
        lemma_anchor_is_listed(anchor, first, roots, (n - 1) as nat, at);
        let i = choose|i: int| 0 <= i < before.len() && before[i] == anchor;
        assert(all[i] == anchor);
    }
}

/// A value that was proven too long ago, or against a block that is not on the
/// best chain, proves nothing.
pub proof fn law_stale_values_prove_nothing(
    value: ValueView,
    best_height: Option<u32>,
    roots: Seq<AnchorView>,
)
    requires
        !is_recent_canonical(value.anchor, best_height, roots),
    ensures
        records_of_cached(value, best_height, roots) == Err::<ProvenView, _>(
            ResolverError::ProofUnavailable,
        ),
{
}

/// A stored value is used only for the name that it was proven for.
pub proof fn law_cached_value_is_for_its_name(
    rows: Seq<RowView>,
    root_name: Seq<char>,
    name_hash: Seq<u8>,
)
    requires
        cached_value_of(rows, root_name, name_hash) is Ok,
    ensures
        cached_value_of(rows, root_name, name_hash)->Ok_0.root_name == root_name,
        cached_value_of(rows, root_name, name_hash)->Ok_0.name_hash == name_hash,
        cached_value_of(rows, root_name, name_hash)->Ok_0.secure,
{
}

/// Every peer that is not banned and knows the block is among those to ask, and
/// nobody else. They are asked by their score, the lowest first, and by their
/// height, the highest first, where the scores are the same.
pub proof fn law_fit_peers_are_asked_in_order(peers: Seq<PeerView>, n: nat, proof_height: u32)
    requires
        n <= peers.len(),
    ensures
        forall|peer: PeerView| #[trigger]
            ranked(peers, n, proof_height).contains(peer) <==> exists|i: int|
                0 <= i < n && #[trigger] peers[i] == peer && !peer.banned && peer.last_height
                    >= proof_height,
        forall|i: int, j: int|
            0 <= i < j < ranked(peers, n, proof_height).len() ==> in_order(
                #[trigger] ranked(peers, n, proof_height)[i],
                #[trigger] ranked(peers, n, proof_height)[j],
            ),
    decreases n,
{
    if n > 0 {
        law_fit_peers_are_asked_in_order(peers, (n - 1) as nat, proof_height);
        let before = ranked(peers, (n - 1) as nat, proof_height);
        let all = ranked(peers, n, proof_height);
        let last = peers[n - 1];
        if can_prove(last, proof_height) {
            lemma_ranked_in_order(before, last);
        }
        assert forall|peer: PeerView| #[trigger] all.contains(peer) <==> exists|i: int|
            0 <= i < n && #[trigger] peers[i] == peer && !peer.banned && peer.last_height
                >= proof_height by {
            if all.contains(peer) {
                if before.contains(peer) {
                    let i = choose|i: int|
                        0 <= i < n - 1 && #[trigger] peers[i] == peer && !peer.banned
                            && peer.last_height >= proof_height;
                    assert(peers[i] == peer);
                } else {
                    assert(peers[n - 1] == peer);
                }
            }
            if exists|i: int|
                0 <= i < n && #[trigger] peers[i] == peer && !peer.banned && peer.last_height
                    >= proof_height {
                let i = choose|i: int|
                    0 <= i < n && #[trigger] peers[i] == peer && !peer.banned && peer.last_height
                        >= proof_height;
                if i < n - 1 {
                    assert(peers[i] == peer);
                    assert(before.contains(peer));
                }
            }
        }
    }
}

/// Whether one peer may be asked ahead of another: it has the lower score, or the
/// same score and no lower height.
pub open spec fn in_order(a: PeerView, b: PeerView) -> bool {
    a.score < b.score || (a.score == b.score && a.last_height >= b.last_height)
}

proof fn lemma_ranked_in_order(sorted: Seq<PeerView>, peer: PeerView)
    requires
        forall|i: int, j: int|
            0 <= i < j < sorted.len() ==> in_order(#[trigger] sorted[i], #[trigger] sorted[j]),
    ensures
        ranked_in(sorted, peer).len() == sorted.len() + 1,
        forall|other: PeerView| #[trigger]
            ranked_in(sorted, peer).contains(other) <==> sorted.contains(other) || other == peer,
        forall|i: int, j: int|
            0 <= i < j < ranked_in(sorted, peer).len() ==> in_order(
                #[trigger] ranked_in(sorted, peer)[i],
                #[trigger] ranked_in(sorted, peer)[j],
            ),
    decreases sorted.len(),
{
    let all = ranked_in(sorted, peer);
    if sorted.len() > 0 && asked_before(peer, sorted.last()) {
        let rest = sorted.drop_last();
        lemma_ranked_in_order(rest, peer);
        let inner = ranked_in(rest, peer);
        assert forall|other: PeerView| #[trigger] all.contains(other) <==> sorted.contains(other) || other
            == peer by {
            if all.contains(other) {
                let k = choose|k: int| 0 <= k < all.len() && all[k] == other;
                if k < inner.len() {
                    assert(inner[k] == other);
                    assert(inner.contains(other));
                    if other != peer {
                        let m = choose|m: int| 0 <= m < rest.len() && rest[m] == other;
                        assert(sorted[m] == other);
                    }
                } else {
                    assert(sorted[sorted.len() - 1] == other);
                }
            }
            if sorted.contains(other) || other == peer {
                if other == sorted.last() {
                    assert(all[all.len() - 1] == other);
                } else {
                    if other != peer {
                        let m = choose|m: int| 0 <= m < sorted.len() && sorted[m] == other;
                        assert(rest[m] == other);
                    }
                    assert(inner.contains(other));
                    let k = choose|k: int| 0 <= k < inner.len() && inner[k] == other;
                    assert(all[k] == other);
                }
            }
        }
        assert forall|i: int, j: int| 0 <= i < j < all.len() implies in_order(
            #[trigger] all[i],
            #[trigger] all[j],
        ) by {
            if j < inner.len() {
                assert(in_order(inner[i], inner[j]));
            } else {
                assert(inner.contains(inner[i]));
                if inner[i] != peer {
                    let m = choose|m: int| 0 <= m < rest.len() && rest[m] == inner[i];
                    assert(in_order(sorted[m], sorted[sorted.len() - 1]));
                }
            }
        }
    } else {
        assert forall|other: PeerView| #[trigger] all.contains(other) <==> sorted.contains(other) || other
            == peer by {
            if sorted.contains(other) {
                let m = choose|m: int| 0 <= m < sorted.len() && sorted[m] == other;
                assert(all[m] == other);
            }
            if other == peer {
                assert(all[all.len() - 1] == other);
            }
            if all.contains(other) {
                let k = choose|k: int| 0 <= k < all.len() && all[k] == other;
                if k < sorted.len() {
                    assert(sorted[k] == other);
                }
            }
        }
        assert forall|i: int, j: int| 0 <= i < j < all.len() implies in_order(
            #[trigger] all[i],
            #[trigger] all[j],
        ) by {
            if j == all.len() - 1 && i < sorted.len() - 1 {
                assert(in_order(sorted[i], sorted[sorted.len() - 1]));
            }
        }
    }
}

/// As many of the peers to ask as are wanted are asked, those first that come
/// first; all of them where there are no more.
pub proof fn law_as_many_peers_as_wanted(
    peers: Seq<PeerView>,
    preferred_count: nat,
    proof_height: u32,
    i: int,
)
    requires
        0 <= i < ranked(peers, peers.len(), proof_height).len(),
    ensures
        i < preferred_count <==> i < selected(peers, preferred_count, proof_height).len(),
        i < preferred_count ==> selected(peers, preferred_count, proof_height)[i] == ranked(
            peers,
            peers.len(),
            proof_height,
        )[i].address,
{
}

/// A value counts for a day of blocks: if its block is one of the best chain, not
/// the first, and at most 144 below the tip.
pub proof fn law_which_values_count(
    anchor: AnchorView,
    best: u32,
    roots: Seq<AnchorView>,
    value: ValueView,
)
    requires
        value.anchor == Some(anchor),
    ensures
        is_recent_canonical(Some(anchor), Some(best), roots) <==> roots.contains(anchor)
            && anchor.height > 0 && anchor.height <= best <= anchor.height + 144,
        is_recent_canonical(Some(anchor), Some(best), roots) ==> records_of_cached(
            value,
            Some(best),
            roots,
        ) == proven::proven_from(value),
{
}

/// Proofs are asked for under the tip, if there is one above the genesis block.
pub proof fn law_proofs_are_under_the_tip(tip: TipView)
    ensures
        tip.height > 0 ==> proof_tip(Some(tip)) == Ok::<_, ResolverError>(tip),
        tip.height == 0 ==> proof_tip(Some(tip)) == Err::<TipView, _>(
            ResolverError::ProofUnavailable,
        ),
        proof_tip(None) == Err::<TipView, _>(ResolverError::ProofUnavailable),
{
}

/// A peer that sent a proof is noted with its height, and one that failed is not
/// held to have lied.
pub proof fn law_peer_is_noted_as_it_replied(
    address: AddressView,
    now: u64,
    outcome: Result<u32, SyncError>,
)
    ensures
        outcome matches Ok(height) ==> reply_event(address, now, outcome) == (EventView::Success {
            address,
            height,
            now,
        }),
        outcome is Err ==> reply_event(address, now, outcome) == (EventView::TransientFailure {
            address,
        }),
{
}

} // verus!
