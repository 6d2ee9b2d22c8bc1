//! The headers that have been accepted, batches of new ones, and locators.
use crate::hash::Hash256;
use crate::sync::error::{ChainError, SyncError};
use vstd::arithmetic::power2::*;
use vstd::prelude::*;

verus! {

pub const DEFAULT_LOCATOR_LIMIT: usize = 32;

/// The number of locator entries that are one block apart.
pub const DENSE_LOCATOR_ENTRIES: usize = 10;

/// An accepted header: what synchronisation and resolution read of it.
#[derive(Clone, Copy, Debug, PartialEq, Eq)]
pub struct StoredHeader {
    pub hash: Hash256,
    pub prev_block: Hash256,
    pub tree_root: Hash256,
    pub height: u32,
}

pub struct HeaderView {
    pub hash: Seq<u8>,
    pub prev_block: Seq<u8>,
    pub tree_root: Seq<u8>,
    pub height: u32,
}

impl View for StoredHeader {
    type V = HeaderView;

    open spec fn view(&self) -> HeaderView {
        HeaderView {
            hash: self.hash@,
            prev_block: self.prev_block@,
            tree_root: self.tree_root@,
            height: self.height,
        }
    }
}

pub open spec fn header_views(headers: Seq<StoredHeader>) -> Seq<HeaderView> {
    Seq::new(headers.len(), |i: int| headers[i]@)
}

pub open spec fn header_option(header: Option<StoredHeader>) -> Option<HeaderView> {
    match header {
        Some(h) => Some(h@),
        None => None,
    }
}

/// The header with a hash, the earliest stored where there are several.
pub open spec fn header_with(headers: Seq<HeaderView>, hash: Seq<u8>) -> Option<HeaderView>
    decreases headers.len(),
{
    if headers.len() == 0 {
        None
    } else if headers[0].hash == hash {
        Some(headers[0])
    } else {
        header_with(headers.skip(1), hash)
    }
}

/// What the consensus rules say of a header that is not known yet: the height
/// it takes and whether it is the new best, or why it is refused.
#[derive(Clone, Debug, PartialEq, Eq)]
pub enum HeaderVerdict {
    Accepted { height: u32, is_best: bool },
    Refused(ChainError),
}

/// A header from a peer, with its verdict.
#[derive(Clone, Debug, PartialEq, Eq)]
pub struct CandidateHeader {
    pub hash: Hash256,
    pub prev_block: Hash256,
    pub tree_root: Hash256,
    pub verdict: HeaderVerdict,
}

pub struct CandidateView {
    pub hash: Seq<u8>,
    pub prev_block: Seq<u8>,
    pub tree_root: Seq<u8>,
    pub verdict: HeaderVerdict,
}

impl View for CandidateHeader {
    type V = CandidateView;

    open spec fn view(&self) -> CandidateView {
        CandidateView {
            hash: self.hash@,
            prev_block: self.prev_block@,
            tree_root: self.tree_root@,
            verdict: self.verdict,
        }
    }
}

pub open spec fn candidate_views(batch: Seq<CandidateHeader>) -> Seq<CandidateView> {
    Seq::new(batch.len(), |i: int| batch[i]@)
}

/// The headers of a chain and the best of them.
pub struct ChainView {
    pub headers: Seq<HeaderView>,
    pub best: Option<HeaderView>,
}

impl CandidateView {
    pub open spec fn at(self, height: u32) -> HeaderView {
        HeaderView {
            hash: self.hash,
            prev_block: self.prev_block,
            tree_root: self.tree_root,
            height,
        }
    }
}

/// A chain after one candidate, and whether it was taken: a known header and a
/// duplicate change nothing, any other refusal is an error.
pub open spec fn with_candidate(chain: ChainView, candidate: CandidateView) -> Result<
    (ChainView, bool),
    ChainError,
> {
    if header_with(chain.headers, candidate.hash) is Some {
        Ok((chain, false))
    } else {
        match candidate.verdict {
            HeaderVerdict::Accepted { height, is_best } => {
                let header = candidate.at(height);
                Ok(
                    (
                        ChainView {
                            headers: chain.headers.push(header),
                            best: if is_best {
                                Some(header)
                            } else {
                                chain.best
                            },
                        },
                        true,
                    ),
                )
            },
            HeaderVerdict::Refused(error) => if error is DuplicateHeader {
                Ok((chain, false))
            } else {
                Err(error)
            },
        }
    }
}

/// A chain after the candidates `batch[i..]`, how many of them were taken, and
/// the error that stopped the batch, where one did. What was taken before an
/// error stays.
pub open spec fn with_batch(chain: ChainView, batch: Seq<CandidateView>, i: nat) -> (
    ChainView,
    nat,
    Option<ChainError>,
)
    decreases batch.len() - i,
{
    if i >= batch.len() {
        (chain, 0, None)
    } else {
        match with_candidate(chain, batch[i as int]) {
            Err(error) => (chain, 0, Some(error)),
            Ok((next, taken)) => {
                let rest = with_batch(next, batch, i + 1);
                (
                    rest.0,
                    if taken {
                        rest.1 + 1
                    } else {
                        rest.1
                    },
                    rest.2,
                )
            },
        }
    }
}

/// The outcome of a batch.
#[derive(Clone, Debug, PartialEq, Eq)]
pub struct HeaderBatchResult {
    pub accepted: usize,
    pub best: Option<StoredHeader>,
}

/// The accepted headers, and the limit of the locators made from them.
#[derive(Clone, Debug, PartialEq, Eq)]
pub struct HeaderSyncCoordinator {
    pub headers: Vec<StoredHeader>,
    pub best: Option<StoredHeader>,
    pub locator_limit: usize,
}

impl View for HeaderSyncCoordinator {
    type V = ChainView;

    open spec fn view(&self) -> ChainView {
        ChainView { headers: header_views(self.headers@), best: header_option(self.best) }
    }
}

/// The header that is `steps` blocks before `current`, or the genesis block;
/// `None` where a parent is missing.
pub open spec fn ancestor(headers: Seq<HeaderView>, current: HeaderView, steps: nat) -> Option<
    HeaderView,
>
    decreases steps,
{
    if steps == 0 || current.height == 0 {
        Some(current)
    } else {
        match header_with(headers, current.prev_block) {
            None => None,
            Some(parent) => ancestor(headers, parent, (steps - 1) as nat),
        }
    }
}

/// How far apart the entries are after the `count`th: twice as far as before
/// once the dense part is full.
pub open spec fn next_stride(stride: nat, count: nat) -> nat {
    if count >= DENSE_LOCATOR_ENTRIES {
        if 2 * stride > usize::MAX {
            usize::MAX as nat
        } else {
            2 * stride
        }
    } else {
        stride
    }
}

/// The locator entries from `current` on, after `count` entries; `None` where
/// a parent is missing.
pub open spec fn locator_from(
    headers: Seq<HeaderView>,
    current: HeaderView,
    count: nat,
    stride: nat,
    limit: nat,
) -> Option<Seq<Seq<u8>>>
    decreases limit - count,
{
    if count >= limit {
        Some(Seq::empty())
    } else if current.height == 0 {
        Some(seq![current.hash])
    } else {
        match ancestor(headers, current, stride) {
            None => None,
            Some(next) => match locator_from(
                headers,
                next,
                count + 1,
                next_stride(stride, count + 1),
                limit,
            ) {
                None => None,
                Some(rest) => Some(seq![current.hash] + rest),
            },
        }
    }
}

/// The locator of a chain: empty without a best header.
pub open spec fn locator_of(chain: ChainView, limit: nat) -> Option<Seq<Seq<u8>>> {
    match chain.best {
        None => Some(Seq::empty()),
        Some(best) => locator_from(chain.headers, best, 0, 1, limit),
    }
}

pub open spec fn hash_views(hashes: Seq<Hash256>) -> Seq<Seq<u8>> {
    Seq::new(hashes.len(), |i: int| hashes[i]@)
}

/// What a peer session hands to the coordinator.
#[derive(Clone, Debug, PartialEq, Eq)]
pub enum HeaderAction {
    Headers(Vec<CandidateHeader>),
    Other,
}

impl HeaderSyncCoordinator {
    pub fn new(headers: Vec<StoredHeader>, best: Option<StoredHeader>) -> (r: Self)
        ensures
            r.headers == headers,
            r.best == best,
            r.locator_limit == DEFAULT_LOCATOR_LIMIT,
    {
        HeaderSyncCoordinator::with_locator_limit(headers, best, DEFAULT_LOCATOR_LIMIT)
    }

    pub fn with_locator_limit(
        headers: Vec<StoredHeader>,
        best: Option<StoredHeader>,
        locator_limit: usize,
    ) -> (r: Self)
        ensures
            r.headers == headers,
            r.best == best,
            r.locator_limit == locator_limit,
    {
        HeaderSyncCoordinator { headers, best, locator_limit }
    }

    pub fn best_header(&self) -> (r: Option<StoredHeader>)
        ensures
            r == self.best,
    {
        self.best
    }

    pub fn get_header(&self, hash: &Hash256) -> (r: Option<StoredHeader>)
        ensures
            header_option(r) == header_with(self@.headers, hash@),
    {
        let ghost all = self@.headers;
        let mut i: usize = 0;
        assert(all.skip(0) =~= all);
        while i < self.headers.len()
            invariant
                i <= self.headers.len(),
                all == header_views(self.headers@),
                header_with(all, hash@) == header_with(all.skip(i as int), hash@),
            decreases self.headers.len() - i,
        {
            proof {
                assert(all.skip(i as int)[0] == self.headers@[i as int]@);
                assert(all.skip(i as int).skip(1) =~= all.skip(i + 1));
            }
            if self.headers[i].hash.same(hash) {
                return Some(self.headers[i]);
            }
            i = i + 1;
        }
        None
    }

    /// Takes a batch when that is what the session brought.
    pub fn ingest_action(&mut self, action: HeaderAction) -> (r: Result<
        HeaderBatchResult,
        SyncError,
    >)
        ensures
            final(self).locator_limit == old(self).locator_limit,
            match action {
                HeaderAction::Other => r is Err && r->Err_0 == SyncError::UnexpectedAction
                    && final(self)@ == old(self)@,
                HeaderAction::Headers(batch) => batch_ingested(
                    old(self)@,
                    candidate_views(batch@),
                    r,
                    final(self)@,
                ),
            },
    {
        match action {
            HeaderAction::Headers(batch) => self.ingest_headers(batch),
            HeaderAction::Other => Err(SyncError::UnexpectedAction),
        }
    }

    /// Takes the new headers of a batch in order, up to the first that is
    /// refused for another reason than being known.
    pub fn ingest_headers(&mut self, batch: Vec<CandidateHeader>) -> (r: Result<
        HeaderBatchResult,
        SyncError,
    >)
        ensures
            batch_ingested(old(self)@, candidate_views(batch@), r, final(self)@),
            final(self).locator_limit == old(self).locator_limit,
    {
        let ghost start = self@;
        let ghost all = candidate_views(batch@);
        let mut accepted: usize = 0;
        let mut i: usize = 0;
        let mut rest = batch;
        let count: usize = rest.len();
        assert(all.skip(0) =~= all);
        while rest.len() > 0
            invariant
                i + rest.len() == count,
                count == all.len(),
                accepted <= i,
                start == old(self)@,
                all == candidate_views(batch@),
                candidate_views(rest@) == all.skip(i as int),
                self.locator_limit == old(self).locator_limit,
                with_batch(start, all, 0).0 == with_batch(self@, all, i as nat).0,
                with_batch(start, all, 0).1 == accepted + with_batch(self@, all, i as nat).1,
                with_batch(start, all, 0).2 == with_batch(self@, all, i as nat).2,
            decreases rest.len(),
        {
            let ghost before = rest@;
            let candidate = rest.remove(0);
            proof {
                assert(candidate_views(before)[0] == all[i as int]);
                assert(candidate@ == all[i as int]);
                assert(rest@ =~= before.remove(0));
                assert forall|j: int| 0 <= j < rest@.len() implies candidate_views(rest@)[j]
                    == all.skip(i + 1)[j] by {
                    assert(candidate_views(before)[j + 1] == all.skip(i as int)[j + 1]);
                }
                assert(candidate_views(rest@) =~= all.skip(i + 1));
            }
            let known = self.get_header(&candidate.hash).is_some();
            if !known {
                match candidate.verdict {
                    HeaderVerdict::Accepted { height, is_best } => {
                        let header = StoredHeader {
                            hash: candidate.hash,
                            prev_block: candidate.prev_block,
                            tree_root: candidate.tree_root,
                            height,
                        };
                        let ghost headers = self@.headers;
                        self.headers.push(header);
                        assert(header_views(self.headers@) =~= headers.push(header@));
                        if is_best {
                            self.best = Some(header);
                        }
                        accepted = accepted + 1;
                    },
                    HeaderVerdict::Refused(ChainError::DuplicateHeader) => {},
                    HeaderVerdict::Refused(error) => {
                        return Err(SyncError::Chain(error));
                    },
                }
            }
            i = i + 1;
        }
        Ok(HeaderBatchResult { accepted, best: self.best })
    }

    /// The locator of the chain, of at most the usual length.
    pub fn locator(&self) -> (r: Result<Vec<Hash256>, SyncError>)
        ensures
            match r {
                Ok(hashes) => locator_of(self@, self.locator_limit as nat) == Some(
                    hash_views(hashes@),
                ),
                Err(error) => locator_of(self@, self.locator_limit as nat) is None && error
                    == SyncError::Chain(ChainError::UnknownParent),
            },
    {
        self.locator_with_limit(self.locator_limit)
    }

    /// The hashes from the best header backward: the first ones in a row, then
    /// at doubling distances, down to the genesis block or `limit` entries.
    pub fn locator_with_limit(&self, limit: usize) -> (r: Result<Vec<Hash256>, SyncError>)
        ensures
            match r {
                Ok(hashes) => locator_of(self@, limit as nat) == Some(hash_views(hashes@)),
                Err(error) => locator_of(self@, limit as nat) is None && error == SyncError::Chain(
                    ChainError::UnknownParent,
                ),
            },
    {
        let mut hashes: Vec<Hash256> = Vec::new();
        let mut current: StoredHeader = match self.best {
            Some(best) => best,
            None => {
                assert(hash_views(hashes@) =~= Seq::empty());
                return Ok(hashes);
            },
        };
        let ghost chain = self@;
        let ghost whole = locator_of(chain, limit as nat);
        let mut stride: usize = 1;
        proof {
            assert(hash_views(hashes@) =~= Seq::empty());
            if let Some(entries) = locator_from(chain.headers, current@, 0, 1, limit as nat) {
                assert(Seq::<Seq<u8>>::empty() + entries =~= entries);
            }
        }
        while hashes.len() < limit
            invariant
                chain == self@,
                hashes.len() <= limit,
                whole == locator_of(chain, limit as nat),
                whole == match locator_from(
                    chain.headers,
                    current@,
                    hashes@.len(),
                    stride as nat,
                    limit as nat,
                ) {
                    Some(rest) => Some(hash_views(hashes@) + rest),
                    None => None,
                },
            decreases limit - hashes.len(),
        {
            let ghost before = hash_views(hashes@);
            let ghost here = current@;
            hashes.push(current.hash);
            assert(hash_views(hashes@) =~= before.push(here.hash));
            if current.height == 0 {
                assert(before + seq![here.hash] =~= hash_views(hashes@));
                return Ok(hashes);
            }
            match self.walk_back(current, stride) {
                Some(next) => {
                    current = next;
                },
                None => {
                    return Err(SyncError::Chain(ChainError::UnknownParent));
                },
            }
            if hashes.len() >= DENSE_LOCATOR_ENTRIES {
                stride = if stride > usize::MAX / 2 {
                    usize::MAX
                } else {
                    stride * 2
                };
            }
            proof {
                match locator_from(
                    chain.headers,
                    current@,
                    hashes@.len(),
                    stride as nat,
                    limit as nat,
                ) {
                    Some(rest) => {
                        assert(before + (seq![here.hash] + rest) =~= hash_views(hashes@) + rest);
                    },
                    None => {},
                }
            }
        }
        assert(hash_views(hashes@) + Seq::<Seq<u8>>::empty() =~= hash_views(hashes@));
        Ok(hashes)
    }

    fn walk_back(&self, from: StoredHeader, steps: usize) -> (r: Option<StoredHeader>)
        ensures
            header_option(r) == ancestor(self@.headers, from@, steps as nat),
    {
        let mut current: StoredHeader = from;
        let mut left: usize = steps;
        while left > 0 && current.height != 0
            invariant
                ancestor(self@.headers, from@, steps as nat) == ancestor(
                    self@.headers,
                    current@,
                    left as nat,
                ),
            decreases left,
        {
            match self.get_header(&current.prev_block) {
                Some(parent) => {
                    current = parent;
                },
                None => {
                    return None;
                },
            }
            left = left - 1;
        }
        Some(current)
    }
}

/// Whether a batch came out as `r`, with the chain left as `after`.
pub open spec fn batch_ingested(
    before: ChainView,
    batch: Seq<CandidateView>,
    r: Result<HeaderBatchResult, SyncError>,
    after: ChainView,
) -> bool {
    let (chain, taken, stopped) = with_batch(before, batch, 0);
    &&& after == chain
    &&& match r {
        Ok(result) => stopped is None && result.accepted == taken && header_option(result.best)
            == chain.best,
        Err(error) => stopped is Some && error == SyncError::Chain(stopped->0),
    }
}

/// A batch of known headers changes nothing and is no error.
pub proof fn law_known_headers_are_noops(chain: ChainView, batch: Seq<CandidateView>, i: nat)
    requires
        forall|k: int|
            0 <= k < batch.len() ==> header_with(chain.headers, (#[trigger] batch[k]).hash) is Some,
    ensures
        with_batch(chain, batch, i) == (chain, 0nat, None::<ChainError>),
    decreases batch.len() - i,
{
    if i < batch.len() {
        law_known_headers_are_noops(chain, batch, i + 1);
    }
}

proof fn lemma_header_with_push(headers: Seq<HeaderView>, header: HeaderView, hash: Seq<u8>)
    ensures
        header_with(headers.push(header), hash) == match header_with(headers, hash) {
            Some(found) => Some(found),
            None => if header.hash == hash {
                Some(header)
            } else {
                None
            },
        },
    decreases headers.len(),
{
    reveal_with_fuel(header_with, 2);
    if headers.len() > 0 {
        assert(headers.push(header).skip(1) =~= headers.skip(1).push(header));
        lemma_header_with_push(headers.skip(1), header, hash);
    } else {
        assert(headers.push(header).skip(1) =~= Seq::empty());
    }
}

/// Ingesting keeps every header that was known, and makes each header that it
/// takes known.
pub proof fn law_taken_headers_become_known(chain: ChainView, candidate: CandidateView)
    requires
        with_candidate(chain, candidate) is Ok,
    ensures
        ({
            let (after, taken) = with_candidate(chain, candidate)->Ok_0;
            &&& taken ==> header_with(after.headers, candidate.hash) is Some
            &&& forall|hash: Seq<u8>|
                header_with(chain.headers, hash) is Some ==> #[trigger] header_with(
                    after.headers,
                    hash,
                ) == header_with(chain.headers, hash)
        }),
{
    let (after, taken) = with_candidate(chain, candidate)->Ok_0;
    if taken {
        let height = candidate.verdict->Accepted_height;
        assert forall|hash: Seq<u8>| header_with(chain.headers, hash) is Some implies
            #[trigger] header_with(after.headers, hash) == header_with(chain.headers, hash) by {
            lemma_header_with_push(chain.headers, candidate.at(height), hash);
        }
        lemma_header_with_push(chain.headers, candidate.at(height), candidate.hash);
    }
}

/// Whether a chain has no more to do with a candidate: it holds the header, or
/// the header is told to be a duplicate.
pub open spec fn settled(chain: ChainView, candidate: CandidateView) -> bool {
    header_with(chain.headers, candidate.hash) is Some || (candidate.verdict is Refused
        && candidate.verdict->Refused_0 is DuplicateHeader)
}

proof fn lemma_batch_keeps_known(chain: ChainView, batch: Seq<CandidateView>, i: nat, hash: Seq<u8>)
    requires
        header_with(chain.headers, hash) is Some,
    ensures
        header_with(with_batch(chain, batch, i).0.headers, hash) is Some,
    decreases batch.len() - i,
{
    if i < batch.len() && with_candidate(chain, batch[i as int]) is Ok {
        law_taken_headers_become_known(chain, batch[i as int]);
        let next = with_candidate(chain, batch[i as int])->Ok_0;
        lemma_batch_keeps_known(next.0, batch, i + 1, hash);
    }
}

proof fn lemma_batch_settles(chain: ChainView, batch: Seq<CandidateView>, i: nat, k: int)
    requires
        with_batch(chain, batch, i).2 is None,
        i <= k < batch.len(),
    ensures
        settled(with_batch(chain, batch, i).0, batch[k]),
    decreases batch.len() - i,
{
    law_taken_headers_become_known(chain, batch[i as int]);
    let next = with_candidate(chain, batch[i as int])->Ok_0;
    if i < k {
        lemma_batch_settles(next.0, batch, i + 1, k);
    } else if header_with(next.0.headers, batch[k].hash) is Some {
        lemma_batch_keeps_known(next.0, batch, i + 1, batch[k].hash);
    }
}

proof fn lemma_settled_batch_is_a_noop(chain: ChainView, batch: Seq<CandidateView>, i: nat)
    requires
        forall|k: int| i <= k < batch.len() ==> settled(chain, #[trigger] batch[k]),
    ensures
        with_batch(chain, batch, i) == (chain, 0nat, None::<ChainError>),
    decreases batch.len() - i,
{
    if i < batch.len() {
        lemma_settled_batch_is_a_noop(chain, batch, i + 1);
    }
}

/// A batch that was taken whole changes nothing the second time: none of its
/// headers is accepted, none is an error, and the best header stays.
pub proof fn law_batch_again_is_a_noop(before: ChainView, batch: Seq<CandidateView>)
    requires
        with_batch(before, batch, 0).2 is None,
    ensures
        with_batch(with_batch(before, batch, 0).0, batch, 0) == (
            with_batch(before, batch, 0).0,
            0nat,
            None::<ChainError>,
        ),
{
    let after = with_batch(before, batch, 0).0;
    assert forall|k: int| 0 <= k < batch.len() implies settled(after, #[trigger] batch[k]) by {
        lemma_batch_settles(before, batch, 0, k);
    }
    lemma_settled_batch_is_a_noop(after, batch, 0);
}

/// The hashes of `batch[i..]` that a chain does not hold and that the rules
/// accept.
pub open spec fn new_hashes(chain: ChainView, batch: Seq<CandidateView>, i: nat) -> Set<Seq<u8>> {
    Set::new(
        |hash: Seq<u8>|
            header_with(chain.headers, hash) is None && exists|k: int|
                i <= k < batch.len() && (#[trigger] batch[k]).hash == hash
                    && batch[k].verdict is Accepted,
    )
}

proof fn lemma_accepted_are_counted(chain: ChainView, batch: Seq<CandidateView>, i: nat)
    requires
        with_batch(chain, batch, i).2 is None,
    ensures
        new_hashes(chain, batch, i).finite(),
        with_batch(chain, batch, i).1 == new_hashes(chain, batch, i).len(),
        with_batch(chain, batch, i).0.headers.len() == chain.headers.len() + with_batch(
            chain,
            batch,
            i,
        ).1,
    decreases batch.len() - i,
{
    let all = new_hashes(chain, batch, i);
    if i >= batch.len() {
        assert(all =~= Set::empty());
    } else {
        let first = batch[i as int];
        let next = with_candidate(chain, first)->Ok_0;
        let rest = new_hashes(next.0, batch, i + 1);
        lemma_accepted_are_counted(next.0, batch, i + 1);
        if next.1 {
            let header = first.at(first.verdict->Accepted_height);
            assert forall|hash: Seq<u8>| all.contains(hash) <==> rest.insert(first.hash).contains(
                hash,
            ) by {
                lemma_header_with_push(chain.headers, header, hash);
            }
            lemma_header_with_push(chain.headers, header, first.hash);
            assert(all =~= rest.insert(first.hash));
        } else {
            assert(all =~= rest);
        }
    }
}

/// A batch that was taken whole counts each header once: as many are accepted as
/// it holds different headers that were not stored before, and the chain grows
/// by that number.
pub proof fn law_accepted_counts_new_headers(before: ChainView, batch: Seq<CandidateView>)
    requires
        with_batch(before, batch, 0).2 is None,
    ensures
        new_hashes(before, batch, 0).finite(),
        with_batch(before, batch, 0).1 == new_hashes(before, batch, 0).len(),
        with_batch(before, batch, 0).0.headers.len() == before.headers.len() + with_batch(
            before,
            batch,
            0,
        ).1,
{
    lemma_accepted_are_counted(before, batch, 0);
}

/// Of two ingests of one batch the first, where it succeeds, accepts the
/// different headers that were not stored; the second succeeds, accepts none,
/// has the same best header and leaves the chain as it was.
pub proof fn law_second_ingest_takes_nothing(
    before: ChainView,
    batch: Seq<CandidateView>,
    first: Result<HeaderBatchResult, SyncError>,
    between: ChainView,
    second: Result<HeaderBatchResult, SyncError>,
    after: ChainView,
)
    requires
        batch_ingested(before, batch, first, between),
        first is Ok,
        batch_ingested(between, batch, second, after),
    ensures
        first->Ok_0.accepted == new_hashes(before, batch, 0).len(),
        second is Ok,
        second->Ok_0.accepted == 0,
        header_option(second->Ok_0.best) == header_option(first->Ok_0.best),
        after == between,
{
    law_batch_again_is_a_noop(before, batch);
    law_accepted_counts_new_headers(before, batch);
}

/// A locator starts at the best header, and has at most `limit` entries.
pub proof fn law_locator_starts_at_the_tip(chain: ChainView, limit: nat)
    requires
        limit > 0,
        chain.best is Some,
        locator_of(chain, limit) is Some,
    ensures
        locator_of(chain, limit)->0.len() >= 1,
        locator_of(chain, limit)->0[0] == chain.best->0.hash,
        locator_of(chain, limit)->0.len() <= limit,
{
    lemma_locator_length(chain.headers, chain.best->0, 0, 1, limit);
}

proof fn lemma_locator_length(
    headers: Seq<HeaderView>,
    current: HeaderView,
    count: nat,
    stride: nat,
    limit: nat,
)
    ensures
        locator_from(headers, current, count, stride, limit) matches Some(entries) ==> entries.len()
            + count <= limit || entries.len() == 0,
    decreases limit - count,
{
    if count < limit && current.height != 0 {
        match ancestor(headers, current, stride) {
            Some(next) => lemma_locator_length(
                headers,
                next,
                count + 1,
                next_stride(stride, count + 1),
                limit,
            ),
            None => {},
        }
    }
}

/// A header that is looked up is a stored one with that hash; none is found only
/// where none is stored.
pub proof fn law_lookup_finds_what_is_stored(headers: Seq<HeaderView>, hash: Seq<u8>)
    ensures
        header_with(headers, hash) is Some ==> headers.contains(header_with(headers, hash)->0)
            && header_with(headers, hash)->0.hash == hash,
        header_with(headers, hash) is Some <==> exists|i: int|
            0 <= i < headers.len() && (#[trigger] headers[i]).hash == hash,
    decreases headers.len(),
{
    if headers.len() > 0 {
        let rest = headers.skip(1);
        law_lookup_finds_what_is_stored(rest, hash);
        if headers[0].hash == hash {
            assert(headers.contains(headers[0]));
        } else {
            if header_with(headers, hash) is Some {
                let found = header_with(headers, hash)->0;
                let k = choose|k: int| 0 <= k < rest.len() && rest[k] == found;
                assert(headers[k + 1] == found);
            }
            if exists|k: int| 0 <= k < headers.len() && (#[trigger] headers[k]).hash == hash {
                let k = choose|k: int| 0 <= k < headers.len() && (#[trigger] headers[k]).hash == hash;
                assert(rest[k - 1].hash == hash);
            }
        }
    }
}

/// Whether `branch` is a line of stored headers from the genesis block on, each
/// the parent of the next.
pub open spec fn is_branch(headers: Seq<HeaderView>, branch: Seq<HeaderView>) -> bool {
    &&& branch.len() > 0
    &&& forall|i: int| 0 <= i < branch.len() ==> (#[trigger] branch[i]).height == i
    &&& forall|i: int|
        0 < i < branch.len() ==> header_with(headers, (#[trigger] branch[i]).prev_block) == Some(
            branch[i - 1],
        )
}

proof fn lemma_ancestor_on_branch(
    headers: Seq<HeaderView>,
    branch: Seq<HeaderView>,
    at: int,
    steps: nat,
)
    requires
        is_branch(headers, branch),
        0 <= at < branch.len(),
    ensures
        ancestor(headers, branch[at], steps) == Some(
            branch[if steps >= at {
                0
            } else {
                at - steps
            }],
        ),
    decreases steps,
{
    if steps > 0 && at > 0 {
        lemma_ancestor_on_branch(headers, branch, at - 1, (steps - 1) as nat);
    }
}

/// How far below the best header the `k`th entry of a locator lies.
spec fn entry_depth(k: nat) -> nat {
    if k <= 10 {
        k
    } else {
        8 + pow2((k - 9) as nat)
    }
}

spec fn entry_height(tip: nat, k: nat) -> int {
    if entry_depth(k) >= tip {
        0
    } else {
        tip - entry_depth(k)
    }
}

spec fn stride_at(k: nat) -> nat {
    if k < 10 {
        1
    } else if pow2((k - 9) as nat) > usize::MAX {
        usize::MAX as nat
    } else {
        pow2((k - 9) as nat)
    }
}

proof fn lemma_strides(k: nat)
    ensures
        next_stride(stride_at(k), k + 1) == stride_at(k + 1),
        entry_depth(k + 1) == entry_depth(k) + if k < 10 {
            1
        } else {
            pow2((k - 9) as nat)
        },
        stride_at(k) == entry_depth(k + 1) - entry_depth(k) || (stride_at(k) == usize::MAX
            && entry_depth(k + 1) - entry_depth(k) > usize::MAX),
{
    lemma2_to64();
    if k >= 10 {
        lemma_pow2_unfold((k - 8) as nat);
        assert(pow2((k - 8) as nat) == 2 * pow2((k - 9) as nat));
    }
}

proof fn lemma_locator_shape(
    headers: Seq<HeaderView>,
    branch: Seq<HeaderView>,
    count: nat,
    limit: nat,
)
    requires
        is_branch(headers, branch),
        branch.len() <= u32::MAX + 1,
        count <= limit,
    ensures
        ({
            let tip = (branch.len() - 1) as nat;
            let current = branch[entry_height(tip, count)];
            let told = locator_from(headers, current, count, stride_at(count), limit);
            &&& told is Some
            &&& forall|k: int|
                0 <= k < told->0.len() ==> #[trigger] told->0[k] == branch[entry_height(
                    tip,
                    (count + k) as nat,
                )].hash
            &&& forall|k: nat|
                count <= k && k + 1 < count + told->0.len() ==> #[trigger] entry_depth(k) < tip
            &&& count + told->0.len() == limit || (told->0.len() > 0 && entry_depth(
                (count + told->0.len() - 1) as nat,
            ) >= tip)
        }),
    decreases limit - count,
{
    let tip = (branch.len() - 1) as nat;
    let at = entry_height(tip, count);
    let current = branch[at];
    let stride = stride_at(count);
    let told = locator_from(headers, current, count, stride, limit);
    if count < limit && current.height != 0 {
        lemma_strides(count);
        lemma_ancestor_on_branch(headers, branch, at, stride);
        let next = ancestor(headers, current, stride)->0;
        assert(next == branch[entry_height(tip, count + 1)]);
        lemma_locator_shape(headers, branch, count + 1, limit);
        let rest = locator_from(headers, next, count + 1, stride_at(count + 1), limit)->0;
        assert(told->0 =~= seq![current.hash] + rest);
        assert forall|k: int| 0 <= k < told->0.len() implies #[trigger] told->0[k]
            == branch[entry_height(tip, (count + k) as nat)].hash by {
            if k > 0 {
                assert(told->0[k] == rest[k - 1]);
                assert((count + 1) + (k - 1) == count + k);
            }
        }
    } else if count < limit {
        assert(at == 0);
        assert(entry_depth(count) >= tip);
    }
}

/// Where the locator's entries lie, by height: on the line of headers from the
/// genesis block to the best header, the first eleven are one block apart, then
/// the distances are 2, 4, 8 and so on, each twice the one before; what would lie
/// below the genesis block is the genesis block, which is the last. Only the
/// limit ends the locator earlier.
pub proof fn law_locator_entries_by_height(
    chain: ChainView,
    branch: Seq<HeaderView>,
    limit: nat,
)
    requires
        is_branch(chain.headers, branch),
        branch.len() <= u32::MAX + 1,
        chain.best == Some(branch.last()),
    ensures
        locator_of(chain, limit) is Some,
        ({
            let entries = locator_of(chain, limit)->0;
            let tip = branch.len() - 1;
            &&& forall|k: int|
                0 <= k < entries.len() && k <= 10 ==> {
                    &&& #[trigger] entries[k] == branch[if k >= tip {
                        0
                    } else {
                        tip - k
                    }].hash
                    &&& k + 1 < entries.len() ==> k < tip
                }
            &&& forall|k: int|
                10 < k < entries.len() ==> {
                    &&& #[trigger] entries[k] == branch[if 8 + pow2((k - 9) as nat) >= tip {
                        0
                    } else {
                        tip - 8 - pow2((k - 9) as nat)
                    }].hash
                    &&& k + 1 < entries.len() ==> 8 + pow2((k - 9) as nat) < tip
                }
            &&& entries.len() == limit || (entries.len() > 0 && entries.last() == branch[0].hash)
            &&& entries.len() <= limit
        }),
{
    let tip = (branch.len() - 1) as nat;
    assert(entry_height(tip, 0) == tip);
    lemma_locator_shape(chain.headers, branch, 0, limit);
    lemma_locator_length(chain.headers, branch.last(), 0, 1, limit);
    let entries = locator_of(chain, limit)->0;
    assert(forall|k: int|
        0 <= k < entries.len() ==> #[trigger] entries[k] == branch[entry_height(
            tip,
            k as nat,
        )].hash);
    if entries.len() > 0 && entries.len() < limit {
        assert(entries[entries.len() - 1] == branch[0].hash);
    }
    assert forall|k: int|
        #![trigger entries[k]]
        0 <= k < entries.len() - 1 implies (if k <= 10 {
        k < tip
    } else {
        8 + pow2((k - 9) as nat) < tip
    }) by {
        assert(entry_depth(k as nat) < tip);
    }
}

/// An accepted header that is new is stored as it was sent, at the height of its
/// verdict, and becomes the best header exactly where the verdict says so.
pub proof fn law_accepted_header_is_stored(
    chain: ChainView,
    candidate: CandidateView,
    height: u32,
    is_best: bool,
)
    requires
        header_with(chain.headers, candidate.hash) is None,
        candidate.verdict == (HeaderVerdict::Accepted { height, is_best }),
    ensures
        with_candidate(chain, candidate) is Ok,
        ({
            let (after, taken) = with_candidate(chain, candidate)->Ok_0;
            let header = HeaderView {
                hash: candidate.hash,
                prev_block: candidate.prev_block,
                tree_root: candidate.tree_root,
                height,
            };
            &&& taken
            &&& header_with(after.headers, candidate.hash) == Some(header)
            &&& is_best ==> after.best == Some(header)
            &&& !is_best ==> after.best == chain.best
        }),
{
    lemma_header_with_push(chain.headers, candidate.at(height), candidate.hash);
}

/// A refused header stops its batch with the reason, unless it is a duplicate, and
/// takes nothing from the chain.
pub proof fn law_refused_header_stops_the_batch(
    chain: ChainView,
    batch: Seq<CandidateView>,
    i: nat,
    error: ChainError,
)
    requires
        i < batch.len(),
        header_with(chain.headers, batch[i as int].hash) is None,
        batch[i as int].verdict == HeaderVerdict::Refused(error),
    ensures
        error != ChainError::DuplicateHeader ==> with_batch(chain, batch, i) == (
            chain,
            0nat,
            Some(error),
        ),
        error == ChainError::DuplicateHeader ==> with_batch(chain, batch, i) == with_batch(
            chain,
            batch,
            i + 1,
        ),
{
}

} // verus!
