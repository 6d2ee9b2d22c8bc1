//! Asking peers for name proofs, and storing what they prove.
use crate::bytes;
use crate::dns::ResourceRecord;
use crate::error::ResolverError;
use crate::hash;
use crate::hash::{Hash256, NameHash};
use crate::name;
use crate::proven::{AnchorView, PayloadView, ResourcePayload, ValueView, VerifiedResourceValue};
use crate::store;
use crate::store::{MemoryResourceValueProvider, RowView, SqliteResourceValueProvider};
use crate::sync::error::{ProofError, SyncError};
use vstd::prelude::*;
use vstd::string::*;
use vstd::utf8::*;

verus! {

pub const MAX_HSD_NAME_STATE_NAME_BYTES: usize = 63;

pub const MAX_HSD_NAME_STATE_DATA_BYTES: usize = 512;

pub const HSD_NAME_STATE_FIXED_TAIL_BYTES: usize = 10;

/// What a proof proves of its key.
#[derive(Clone, Copy, Debug, PartialEq, Eq, Structural)]
pub enum ProofKind {
    Inclusion,
    NonInclusion,
}

/// A proof that was read, and what the tree's verifier says of it.
#[derive(Debug, PartialEq, Eq)]
pub struct CheckedProof {
    pub root: Hash256,
    pub key: Hash256,
    pub kind: ProofKind,
    pub value: Option<Vec<u8>>,
    pub verified: Result<bool, ProofError>,
}

/// A peer's proof for a key under a tree root: read, or why it cannot be.
#[derive(Debug, PartialEq, Eq)]
pub struct ProofPacket {
    pub root: Hash256,
    pub key: Hash256,
    pub parsed: Result<CheckedProof, ProofError>,
}

/// A verified proof.
#[derive(Clone, Debug, PartialEq, Eq)]
pub struct ProofValidationResult {
    pub root: Hash256,
    pub key: Hash256,
    pub kind: ProofKind,
    pub value: Option<Vec<u8>>,
}

pub struct ValidationView {
    pub root: Seq<u8>,
    pub key: Seq<u8>,
    pub kind: ProofKind,
    pub value: Option<Seq<u8>>,
}

pub open spec fn bytes_view(value: Option<Vec<u8>>) -> Option<Seq<u8>> {
    match value {
        Some(bytes) => Some(bytes@),
        None => None,
    }
}

impl View for ProofValidationResult {
    type V = ValidationView;

    open spec fn view(&self) -> ValidationView {
        ValidationView {
            root: self.root@,
            key: self.key@,
            kind: self.kind,
            value: bytes_view(self.value),
        }
    }
}

pub open spec fn validation_reply(r: Result<ProofValidationResult, SyncError>) -> Result<
    ValidationView,
    SyncError,
> {
    match r {
        Ok(result) => Ok(result@),
        Err(error) => Err(error),
    }
}

/// What a proof that was asked for comes to: it must be readable, be for the
/// root and key it is sent as, and be verified.
pub open spec fn validated(packet: ProofPacket) -> Result<ValidationView, SyncError> {
    match packet.parsed {
        Err(error) => Err(SyncError::Proof(error)),
        Ok(checked) => if checked.root@ != packet.root@ || checked.key@ != packet.key@ {
            Err(SyncError::ProofMismatch)
        } else {
            match checked.verified {
                Err(error) => Err(SyncError::Proof(error)),
                Ok(false) => Err(SyncError::UnverifiedProof),
                Ok(true) => Ok(
                    ValidationView {
                        root: packet.root@,
                        key: packet.key@,
                        kind: checked.kind,
                        value: bytes_view(checked.value),
                    },
                ),
            }
        },
    }
}

/// A tree root and a key.
pub type Wanted = (Seq<u8>, Seq<u8>);

#[derive(Clone, Copy, Debug, PartialEq, Eq)]
pub struct PendingProof {
    pub root: Hash256,
    pub key: Hash256,
}

pub open spec fn wanted_views(pending: Seq<PendingProof>) -> Seq<Wanted> {
    Seq::new(pending.len(), |i: int| (pending[i].root@, pending[i].key@))
}

/// The proofs that were asked for and have not come.
#[derive(Clone, Debug, PartialEq, Eq)]
pub struct ProofSyncCoordinator {
    pub pending: Vec<PendingProof>,
}

impl View for ProofSyncCoordinator {
    type V = Set<Wanted>;

    open spec fn view(&self) -> Set<Wanted> {
        wanted_views(self.pending@).to_set()
    }
}

/// What a session asks for after a packet, or when a proof is wanted.
#[derive(Debug, PartialEq, Eq)]
pub enum ProofAction {
    /// Send the request for the proof.
    SendGetProof,
    /// Send another packet.
    SendOther,
    /// Close the connection, for the reason given.
    Disconnect(String),
    Ready,
    Headers,
    Proof(ProofPacket),
}

impl ProofSyncCoordinator {
    /// Nothing is pending twice.
    pub open spec fn wf(&self) -> bool {
        wanted_views(self.pending@).no_duplicates()
    }

    pub fn new() -> (r: Self)
        ensures
            r.wf(),
            r@ == Set::<Wanted>::empty(),
    {
        let r = ProofSyncCoordinator { pending: Vec::new() };
        assert(r@ =~= Set::<Wanted>::empty());
        r
    }

    pub fn pending_len(&self) -> (r: usize)
        requires
            self.wf(),
        ensures
            r == self@.len(),
    {
        proof {
            wanted_views(self.pending@).unique_seq_to_set();
        }
        self.pending.len()
    }

    fn find(&self, root: Hash256, key: Hash256) -> (r: Option<usize>)
        ensures
            match r {
                Some(i) => i < self.pending@.len() && wanted_views(self.pending@)[i as int] == (
                    root@,
                    key@,
                ),
                None => !self@.contains((root@, key@)),
            },
    {
        let mut i: usize = 0;
        while i < self.pending.len()
            invariant
                i <= self.pending@.len(),
                forall|j: int|
                    0 <= j < i ==> #[trigger] wanted_views(self.pending@)[j] != (root@, key@),
            decreases self.pending@.len() - i,
        {
            if self.pending[i].root.same(&root) && self.pending[i].key.same(&key) {
                return Some(i);
            }
            i = i + 1;
        }
        None
    }

    pub fn track_request(&mut self, root: Hash256, key: Hash256)
        requires
            old(self).wf(),
        ensures
            final(self).wf(),
            final(self)@ == old(self)@.insert((root@, key@)),
    {
        match self.find(root, key) {
            Some(i) => {
                assert(self@.contains(wanted_views(self.pending@)[i as int]));
                assert(self@.insert((root@, key@)) =~= self@);
            },
            None => {
                let ghost before = wanted_views(self.pending@);
                self.pending.push(PendingProof { root, key });
                let ghost after = wanted_views(self.pending@);
                proof {
                    assert(after =~= before.push((root@, key@)));
                    assert forall|w: Wanted| after.to_set().contains(w) == before.to_set().insert(
                        (root@, key@),
                    ).contains(w) by {
                        if before.contains(w) {
                            let i = choose|i: int| 0 <= i < before.len() && before[i] == w;
                            assert(after[i] == w);
                        }
                        if w == (root@, key@) {
                            assert(after[before.len() as int] == w);
                        }
                    }
                    assert(after.to_set() =~= before.to_set().insert((root@, key@)));
                    assert forall|i: int, j: int|
                        0 <= i < after.len() && 0 <= j < after.len() && i
                            != j implies after[i] != after[j] by {
                        if i < before.len() {
                            assert(before.contains(before[i]));
                        }
                        if j < before.len() {
                            assert(before.contains(before[j]));
                        }
                    }
                }
            },
        }
    }

    pub fn forget_request(&mut self, root: Hash256, key: Hash256) -> (r: bool)
        requires
            old(self).wf(),
        ensures
            final(self).wf(),
            r == old(self)@.contains((root@, key@)),
            final(self)@ == old(self)@.remove((root@, key@)),
    {
        match self.find(root, key) {
            Some(at) => {
                let ghost before = wanted_views(self.pending@);
                self.pending.remove(at);
                let ghost after = wanted_views(self.pending@);
                proof {
                    assert(after =~= before.remove(at as int));
                    assert(before.contains(before[at as int]));
                    assert forall|w: Wanted| after.to_set().contains(w) == before.to_set().remove(
                        (root@, key@),
                    ).contains(w) by {
                        if after.contains(w) {
                            let i = choose|i: int| 0 <= i < after.len() && after[i] == w;
                            let k = if i < at {
                                i
                            } else {
                                i + 1
                            };
                            assert(before[k] == w);
                        }
                        if before.contains(w) && w != (root@, key@) {
                            let i = choose|i: int| 0 <= i < before.len() && before[i] == w;
                            let k = if i < at {
                                i
                            } else {
                                i - 1
                            };
                            assert(after[k] == w);
                        }
                    }
                    assert(after.to_set() =~= before.to_set().remove((root@, key@)));
                }
                true
            },
            None => {
                assert(self@.remove((root@, key@)) =~= self@);
                false
            },
        }
    }

    /// Notes a request if the session is to send it.
    pub fn request_proof(&mut self, action: ProofAction, root: Hash256, key: Hash256) -> (r:
        ProofAction)
        requires
            old(self).wf(),
        ensures
            final(self).wf(),
            r == action,
            final(self)@ == (if action is SendGetProof {
                old(self)@.insert((root@, key@))
            } else {
                old(self)@
            }),
    {
        match action {
            ProofAction::SendGetProof => {
                self.track_request(root, key);
            },
            _ => {},
        }
        action
    }

    pub fn ingest_action(&mut self, action: ProofAction) -> (r: Result<
        ProofValidationResult,
        SyncError,
    >)
        requires
            old(self).wf(),
        ensures
            final(self).wf(),
            match action {
                ProofAction::Proof(packet) => proof_ingested(old(self)@, packet, r, final(self)@),
                _ => {
                    &&& r == Err::<ProofValidationResult, _>(SyncError::UnexpectedAction)
                    &&& final(self)@ == old(self)@
                },
            },
    {
        match action {
            ProofAction::Proof(packet) => self.ingest_proof(packet),
            _ => Err(SyncError::UnexpectedAction),
        }
    }

    /// Takes a proof if it was asked for. Either way it is not pending
    /// afterwards.
    pub fn ingest_proof(&mut self, packet: ProofPacket) -> (r: Result<
        ProofValidationResult,
        SyncError,
    >)
        requires
            old(self).wf(),
        ensures
            final(self).wf(),
            proof_ingested(old(self)@, packet, r, final(self)@),
    {
        if !self.forget_request(packet.root, packet.key) {
            assert(self@ =~= old(self)@);
            return Err(SyncError::UnexpectedProof);
        }
        let checked = match packet.parsed {
            Ok(checked) => checked,
            Err(error) => {
                return Err(SyncError::Proof(error));
            },
        };
        if !checked.root.same(&packet.root) || !checked.key.same(&packet.key) {
            return Err(SyncError::ProofMismatch);
        }
        match checked.verified {
            Err(error) => Err(SyncError::Proof(error)),
            Ok(true) => Ok(
                ProofValidationResult {
                    root: packet.root,
                    key: packet.key,
                    kind: checked.kind,
                    value: checked.value,
                },
            ),
            Ok(false) => Err(SyncError::UnverifiedProof),
        }
    }
}

/// How taking a proof relates the requests before it to those after it.
pub open spec fn proof_ingested(
    before: Set<Wanted>,
    packet: ProofPacket,
    r: Result<ProofValidationResult, SyncError>,
    after: Set<Wanted>,
) -> bool {
    let wanted = (packet.root@, packet.key@);
    if before.contains(wanted) {
        after == before.remove(wanted) && validation_reply(r) == validated(packet)
    } else {
        after == before && r == Err::<ProofValidationResult, _>(SyncError::UnexpectedProof)
    }
}

/// Where verified values go.
pub trait VerifiedResourceValueSink: Sized {
    /// Whether storing `value` may end in `reply`.
    /// By default anything may.
    open spec fn stores(
        pre: Self,
        value: ValueView,
        reply: Result<(), ResolverError>,
        post: Self,
    ) -> bool {
        true
    }

    fn insert_verified_resource_value(&mut self, value: VerifiedResourceValue) -> (r: Result<
        (),
        ResolverError,
    >)
        ensures
            Self::stores(*old(self), value@, r, *final(self)),
    ;
}

/// How storing a value as of `now` changes the rows.
pub open spec fn rows_stored(
    before: Seq<RowView>,
    value: ValueView,
    now: u64,
    reply: Result<(), ResolverError>,
    after: Seq<RowView>,
) -> bool {
    match reply {
        Ok(_) => store::normalized(value) is Ok && after == store::upserted(
            before,
            RowView { value: store::normalized(value)->Ok_0, updated_at: now },
        ),
        Err(error) => store::normalized(value) == Err::<ValueView, _>(error) && after == before,
    }
}

impl VerifiedResourceValueSink for MemoryResourceValueProvider {
    open spec fn stores(
        pre: Self,
        value: ValueView,
        reply: Result<(), ResolverError>,
        post: Self,
    ) -> bool {
        rows_stored(store::row_views(pre.rows@), value, 0, reply, store::row_views(post.rows@))
    }

    fn insert_verified_resource_value(&mut self, value: VerifiedResourceValue) -> (r: Result<
        (),
        ResolverError,
    >) {
        self.insert(value)
    }
}

/// The table of verified values, at a point in time.
#[derive(Debug, PartialEq, Eq)]
pub struct StampedStore {
    pub values: SqliteResourceValueProvider,
    pub now: u64,
}

impl VerifiedResourceValueSink for StampedStore {
    open spec fn stores(
        pre: Self,
        value: ValueView,
        reply: Result<(), ResolverError>,
        post: Self,
    ) -> bool {
        post.now == pre.now && rows_stored(pre.values@, value, pre.now, reply, post.values@)
    }

    fn insert_verified_resource_value(&mut self, value: VerifiedResourceValue) -> (r: Result<
        (),
        ResolverError,
    >) {
        let now: u64 = self.now;
        self.values.insert(value, now)
    }
}

/// The resource value in a name state: a length and the name, two bytes of
/// little-endian length and the value, and at least the fixed fields that
/// follow.
pub open spec fn name_state_resource(root: Seq<u8>, value: Seq<u8>) -> Result<Seq<u8>, SyncError> {
    if value.len() == 0 {
        Err(SyncError::MalformedNameStateValue)
    } else {
        let name_end = 1 + value[0] as int;
        if value[0] > MAX_HSD_NAME_STATE_NAME_BYTES || value.len() < name_end + 2 {
            Err(SyncError::MalformedNameStateValue)
        } else if value.subrange(1, name_end) != root {
            Err(SyncError::ProofMismatch)
        } else {
            let data_len = value[name_end] + 256 * value[name_end + 1];
            let data_end = name_end + 2 + data_len;
            if data_len > MAX_HSD_NAME_STATE_DATA_BYTES || value.len() < data_end
                + HSD_NAME_STATE_FIXED_TAIL_BYTES {
                Err(SyncError::MalformedNameStateValue)
            } else {
                Ok(value.subrange(name_end + 2, data_end))
            }
        }
    }
}

pub fn extract_name_state_resource_value(root_name: &str, value: &Vec<u8>) -> (r: Result<
    Vec<u8>,
    SyncError,
>)
    ensures
        match r {
            Ok(data) => name_state_resource(encode_utf8(root_name@), value@) == Ok::<
                _,
                SyncError,
            >(data@),
            Err(error) => name_state_resource(encode_utf8(root_name@), value@) == Err::<
                Seq<u8>,
                _,
            >(error),
        },
{
    if value.len() == 0 {
        return Err(SyncError::MalformedNameStateValue);
    }
    let name_len: usize = value[0] as usize;
    if name_len > MAX_HSD_NAME_STATE_NAME_BYTES {
        return Err(SyncError::MalformedNameStateValue);
    }
    let name_end: usize = 1 + name_len;
    if value.len() < name_end + 2 {
        return Err(SyncError::MalformedNameStateValue);
    }
    let name = bytes::bytes_range(value, 1, name_end);
    let expected = root_name.as_bytes_vec();
    if !crate::dns::same_bytes(&name, &expected) {
        return Err(SyncError::ProofMismatch);
    }
    let data_len: usize = value[name_end] as usize + 256 * value[name_end + 1] as usize;
    if data_len > MAX_HSD_NAME_STATE_DATA_BYTES {
        return Err(SyncError::MalformedNameStateValue);
    }
    let data_start: usize = name_end + 2;
    let data_end: usize = data_start + data_len;
    if value.len() < data_end + HSD_NAME_STATE_FIXED_TAIL_BYTES {
        return Err(SyncError::MalformedNameStateValue);
    }
    Ok(bytes::bytes_range(value, data_start, data_end))
}

/// A name state that holds `data` for `root`, followed by `tail`.
pub open spec fn name_state(root: Seq<u8>, data: Seq<u8>, tail: Seq<u8>) -> Seq<u8> {
    seq![root.len() as u8] + root + seq![(data.len() % 256) as u8, (data.len() / 256) as u8] + data
        + tail
}

/// Reading a name state for the name it was written for gives back the value
/// that was written.
pub proof fn law_name_state_gives_back_its_value(root: Seq<u8>, data: Seq<u8>, tail: Seq<u8>)
    requires
        root.len() <= MAX_HSD_NAME_STATE_NAME_BYTES,
        data.len() <= MAX_HSD_NAME_STATE_DATA_BYTES,
        tail.len() >= HSD_NAME_STATE_FIXED_TAIL_BYTES,
    ensures
        name_state_resource(root, name_state(root, data, tail)) == Ok::<_, SyncError>(data),
{
    let value = name_state(root, data, tail);
    let name_end = 1 + root.len() as int;
    assert(value.len() == 3 + root.len() + data.len() + tail.len());
    assert(value.subrange(1, name_end) =~= root);
    assert(value[name_end] == (data.len() % 256) as u8);
    assert(value[name_end + 1] == (data.len() / 256) as u8);
    assert(value.subrange(name_end + 2, name_end + 2 + data.len()) =~= data);
}

/// A name state for one name is no name state for another.
pub proof fn law_name_state_is_for_one_name(
    root: Seq<u8>,
    other: Seq<u8>,
    data: Seq<u8>,
    tail: Seq<u8>,
)
    requires
        root.len() <= MAX_HSD_NAME_STATE_NAME_BYTES,
        data.len() <= MAX_HSD_NAME_STATE_DATA_BYTES,
        other != root,
    ensures
        name_state_resource(other, name_state(root, data, tail)) == Err::<Seq<u8>, _>(
            SyncError::ProofMismatch,
        ),
{
    let value = name_state(root, data, tail);
    let name_end = 1 + root.len() as int;
    assert(value.len() == 3 + root.len() + data.len() + tail.len());
    assert(value.subrange(1, name_end) =~= root);
}

/// The value to store for a verified proof of a name, where its resource value
/// decodes to `decoded`.
pub open spec fn value_of_proof(
    root_name: Seq<char>,
    name_hash: Seq<u8>,
    result: ValidationView,
    decoded: Result<Vec<ResourceRecord>, String>,
) -> Result<ValueView, SyncError> {
    match result.kind {
        ProofKind::NonInclusion => Ok(
            ValueView { root_name, name_hash, value: None, secure: true, anchor: None },
        ),
        ProofKind::Inclusion => match result.value {
            None => Err(SyncError::MissingProofValue),
            Some(value) => match name_state_resource(encode_utf8(root_name), value) {
                Err(error) => Err(error),
                Ok(data) => Ok(
                    ValueView {
                        root_name,
                        name_hash,
                        value: Some(
                            PayloadView {
                                bytes: data,
                                decoded: match decoded {
                                    Ok(records) => Ok(crate::dns::record_views(records@)),
                                    Err(reason) => Err(reason),
                                },
                            },
                        ),
                        secure: true,
                        anchor: None,
                    },
                ),
            },
        },
    }
}

pub fn verified_resource_value(
    root_name: String,
    name_hash: NameHash,
    result: &ProofValidationResult,
    decoded: Result<Vec<ResourceRecord>, String>,
) -> (r: Result<VerifiedResourceValue, SyncError>)
    ensures
        match r {
            Ok(value) => value_of_proof(root_name@, name_hash@, result@, decoded) == Ok::<
                _,
                SyncError,
            >(value@),
            Err(error) => value_of_proof(root_name@, name_hash@, result@, decoded) == Err::<
                ValueView,
                _,
            >(error),
        },
{
    match result.kind {
        ProofKind::Inclusion => match &result.value {
            None => Err(SyncError::MissingProofValue),
            Some(value) => match extract_name_state_resource_value(root_name.as_str(), value) {
                Ok(bytes) => Ok(
                    VerifiedResourceValue::inclusion(
                        root_name,
                        name_hash,
                        ResourcePayload { bytes, decoded },
                    ),
                ),
                Err(error) => Err(error),
            },
        },
        ProofKind::NonInclusion => Ok(VerifiedResourceValue::non_inclusion(root_name, name_hash)),
    }
}

/// A name whose proof is wanted, under which root, and the height of the block
/// that the root belongs to where it is known.
#[derive(Clone, Debug, PartialEq, Eq)]
pub struct ProofRequest {
    pub root_name: String,
    pub root: Hash256,
    pub name_hash: NameHash,
    pub height: Option<u32>,
}

pub struct RequestView {
    pub root_name: Seq<char>,
    pub root: Seq<u8>,
    pub name_hash: Seq<u8>,
    pub height: Option<u32>,
}

impl View for ProofRequest {
    type V = RequestView;

    open spec fn view(&self) -> RequestView {
        RequestView {
            root_name: self.root_name@,
            root: self.root@,
            name_hash: self.name_hash@,
            height: self.height,
        }
    }
}

impl RequestView {
    pub open spec fn wanted(self) -> Wanted {
        (self.root, self.name_hash)
    }
}

/// What to do next for a request.
#[derive(Clone, Debug, PartialEq, Eq)]
pub enum ProofStep {
    /// Send the packet that the session gave, then go on with the session.
    Send,
    /// The proof is verified: decode its resource value and store it.
    Store(ProofValidationResult),
}

/// Whether a session's action, while a request waits, moves the pending
/// requests from `before` to `after` and gives `r`. Only a proof or something
/// to send is in order; anything else gives the request up.
pub open spec fn action_taken(
    before: Set<Wanted>,
    request: RequestView,
    action: ProofAction,
    r: Result<ProofStep, SyncError>,
    after: Set<Wanted>,
) -> bool {
    match action {
        ProofAction::SendGetProof | ProofAction::SendOther => r == Ok::<_, SyncError>(
            ProofStep::Send,
        ) && after == before,
        ProofAction::Disconnect(reason) => r == Err::<ProofStep, _>(SyncError::P2p(reason))
            && after == before.remove(request.wanted()),
        ProofAction::Ready | ProofAction::Headers => r == Err::<ProofStep, _>(
            SyncError::UnexpectedAction,
        ) && after == before.remove(request.wanted()),
        ProofAction::Proof(packet) => match r {
            Ok(ProofStep::Store(result)) => proof_ingested(before, packet, Ok(result), after),
            Ok(ProofStep::Send) => false,
            Err(error) => proof_ingested(before, packet, Err(error), after),
        },
    }
}

/// Whether storing what a proof of a request proves may end in `r`.
pub open spec fn proof_stored<S: VerifiedResourceValueSink>(
    pre: S,
    request: RequestView,
    result: ValidationView,
    decoded: Result<Vec<ResourceRecord>, String>,
    r: Result<ValidationView, SyncError>,
    post: S,
) -> bool {
    match value_of_proof(request.root_name, request.name_hash, result, decoded) {
        Err(error) => r == Err::<ValidationView, _>(error) && post == pre,
        Ok(value) => sink_replied(pre, anchored(value, result.root, request.height), result, r, post),
    }
}

/// A value with the block that its root belongs to, where that is known.
pub open spec fn anchored(value: ValueView, tree_root: Seq<u8>, height: Option<u32>) -> ValueView {
    match height {
        Some(height) => ValueView { anchor: Some(AnchorView { tree_root, height }), ..value },
        None => value,
    }
}

/// Whether handing `value` to the sink may end in `r`.
pub open spec fn sink_replied<S: VerifiedResourceValueSink>(
    pre: S,
    value: ValueView,
    result: ValidationView,
    r: Result<ValidationView, SyncError>,
    post: S,
) -> bool {
    exists|reply: Result<(), ResolverError>|
        #[trigger] S::stores(pre, value, reply, post) && r == match reply {
            Ok(_) => Ok::<ValidationView, SyncError>(result),
            Err(error) => Err(SyncError::Resolver(error)),
        }
}

/// Asks peers for proofs and stores what they prove.
#[derive(Clone, Debug, PartialEq, Eq)]
pub struct ProofScheduler<S> {
    pub coordinator: ProofSyncCoordinator,
    pub sink: S,
}

impl<S: VerifiedResourceValueSink> ProofScheduler<S> {
    pub fn new(sink: S) -> (r: Self)
        ensures
            r.coordinator.wf(),
            r.coordinator@ == Set::<Wanted>::empty(),
            r.sink == sink,
    {
        ProofScheduler::with_coordinator(ProofSyncCoordinator::new(), sink)
    }

    pub fn with_coordinator(coordinator: ProofSyncCoordinator, sink: S) -> (r: Self)
        ensures
            r.coordinator == coordinator,
            r.sink == sink,
    {
        ProofScheduler { coordinator, sink }
    }

    pub fn pending_len(&self) -> (r: usize)
        requires
            self.coordinator.wf(),
        ensures
            r == self.coordinator@.len(),
    {
        self.coordinator.pending_len()
    }

    pub fn coordinator(&self) -> (r: &ProofSyncCoordinator)
        ensures
            *r == self.coordinator,
    {
        &self.coordinator
    }

    pub fn sink(&self) -> (r: &S)
        ensures
            *r == self.sink,
    {
        &self.sink
    }

    pub fn into_parts(self) -> (r: (ProofSyncCoordinator, S))
        ensures
            r == (self.coordinator, self.sink),
    {
        (self.coordinator, self.sink)
    }

    /// The request for the proof of a name: the name must be one that
    /// Handshake can hold.
    pub fn request_and_store(&self, root_name: &str, root: Hash256) -> (r: Result<
        ProofRequest,
        SyncError,
    >)
        ensures
            request_made(root_name@, root@, None, r),
    {
        match NameHash::from_name(root_name) {
            Ok(name_hash) => Ok(self.request_hash_and_store(root_name, root, name_hash)),
            Err(error) => Err(SyncError::Resolver(ResolverError::InvalidName(error))),
        }
    }

    /// The same, where the root is that of the block at `proof_height`.
    pub fn request_and_store_at_height(
        &self,
        root_name: &str,
        root: Hash256,
        proof_height: u32,
    ) -> (r: Result<ProofRequest, SyncError>)
        ensures
            request_made(root_name@, root@, Some(proof_height), r),
    {
        match NameHash::from_name(root_name) {
            Ok(name_hash) => Ok(
                self.request_hash_and_store_at_height(root_name, root, name_hash, proof_height),
            ),
            Err(error) => Err(SyncError::Resolver(ResolverError::InvalidName(error))),
        }
    }

    /// The request for the proof of a name whose hash is known.
    pub fn request_hash_and_store(&self, root_name: &str, root: Hash256, name_hash: NameHash) -> (r:
        ProofRequest)
        ensures
            r@ == (RequestView {
                root_name: root_name@,
                root: root@,
                name_hash: name_hash@,
                height: None,
            }),
    {
        ProofRequest { root_name: root_name.to_owned(), root, name_hash, height: None }
    }

    /// The same, where the root is that of the block at `proof_height`.
    pub fn request_hash_and_store_at_height(
        &self,
        root_name: &str,
        root: Hash256,
        name_hash: NameHash,
        proof_height: u32,
    ) -> (r: ProofRequest)
        ensures
            r@ == (RequestView {
                root_name: root_name@,
                root: root@,
                name_hash: name_hash@,
                height: Some(proof_height),
            }),
    {
        ProofRequest {
            root_name: root_name.to_owned(),
            root,
            name_hash,
            height: Some(proof_height),
        }
    }

    /// Starts a request, with what the session answered when it was asked for
    /// the packet to send.
    pub fn start(&mut self, request: &ProofRequest, action: ProofAction) -> (r: Result<
        ProofStep,
        SyncError,
    >)
        requires
            old(self).coordinator.wf(),
        ensures
            final(self).coordinator.wf(),
            final(self).sink == old(self).sink,
            final(self).coordinator@ == (if action is SendGetProof {
                old(self).coordinator@.insert(request@.wanted())
            } else {
                old(self).coordinator@
            }),
            match action {
                ProofAction::SendGetProof | ProofAction::SendOther => r == Ok::<_, SyncError>(
                    ProofStep::Send,
                ),
                ProofAction::Disconnect(reason) => r == Err::<ProofStep, _>(SyncError::P2p(reason)),
                _ => r == Err::<ProofStep, _>(SyncError::UnexpectedAction),
            },
    {
        let key = request.name_hash.as_hash();
        match self.coordinator.request_proof(action, request.root, key) {
            ProofAction::SendGetProof | ProofAction::SendOther => Ok(ProofStep::Send),
            ProofAction::Disconnect(reason) => Err(SyncError::P2p(reason)),
            _ => Err(SyncError::UnexpectedAction),
        }
    }

    /// Gives a request up because the connection failed.
    pub fn connection_failed(&mut self, request: &ProofRequest, error: String) -> (r: SyncError)
        requires
            old(self).coordinator.wf(),
        ensures
            final(self).coordinator.wf(),
            final(self).sink == old(self).sink,
            final(self).coordinator@ == old(self).coordinator@.remove(request@.wanted()),
            r == SyncError::P2p(error),
    {
        let key = request.name_hash.as_hash();
        self.coordinator.forget_request(request.root, key);
        SyncError::P2p(error)
    }

    /// Takes one of the session's actions while a request waits.
    pub fn on_action(&mut self, request: &ProofRequest, action: ProofAction) -> (r: Result<
        ProofStep,
        SyncError,
    >)
        requires
            old(self).coordinator.wf(),
        ensures
            final(self).coordinator.wf(),
            final(self).sink == old(self).sink,
            action_taken(
                old(self).coordinator@,
                request@,
                action,
                r,
                final(self).coordinator@,
            ),
    {
        let key = request.name_hash.as_hash();
        match action {
            ProofAction::Proof(packet) => match self.coordinator.ingest_proof(packet) {
                Ok(result) => Ok(ProofStep::Store(result)),
                Err(error) => Err(error),
            },
            ProofAction::SendGetProof | ProofAction::SendOther => Ok(ProofStep::Send),
            ProofAction::Disconnect(reason) => {
                self.coordinator.forget_request(request.root, key);
                Err(SyncError::P2p(reason))
            },
            ProofAction::Ready | ProofAction::Headers => {
                self.coordinator.forget_request(request.root, key);
                Err(SyncError::UnexpectedAction)
            },
        }
    }

    /// Stores what a verified proof proves of the request's name, where its
    /// resource value decodes to `decoded`.
    pub fn store(
        &mut self,
        request: &ProofRequest,
        result: ProofValidationResult,
        decoded: Result<Vec<ResourceRecord>, String>,
    ) -> (r: Result<ProofValidationResult, SyncError>)
        ensures
            final(self).coordinator == old(self).coordinator,
            proof_stored(
                old(self).sink,
                request@,
                result@,
                decoded,
                validation_reply(r),
                final(self).sink,
            ),
    {
        let ghost pre = self.sink;
        let ghost proven = result@;
        let value = match verified_resource_value(
            request.root_name.clone(),
            request.name_hash,
            &result,
            decoded,
        ) {
            Ok(value) => value,
            Err(error) => {
                return Err(error);
            },
        };
        let value = match request.height {
            Some(height) => value.with_anchor(result.root, height),
            None => value,
        };
        let ghost stored = value@;
        let reply = self.sink.insert_verified_resource_value(value);
        assert(S::stores(pre, stored, reply, self.sink));
        let r = match reply {
            Ok(_) => Ok(result),
            Err(error) => Err(SyncError::Resolver(error)),
        };
        assert(sink_replied(pre, stored, proven, validation_reply(r), self.sink));
        r
    }
}

/// What a request for the proof of a name is.
pub open spec fn request_made(
    root_name: Seq<char>,
    root: Seq<u8>,
    height: Option<u32>,
    r: Result<ProofRequest, SyncError>,
) -> bool {
    match r {
        Ok(request) => name::hns_label_error(root_name) is None && request@ == (RequestView {
            root_name,
            root,
            name_hash: hash::hash_of_name(root_name),
            height,
        }),
        Err(error) => match name::hns_label_error(root_name) {
            Some(reason) => error == SyncError::Resolver(ResolverError::InvalidName(reason)),
            None => false,
        },
    }
}

/// A request that ends, in a verified proof or in an error, is no longer
/// pending. A peer that sends the proof of another request is left out: then
/// the other request ends.
pub proof fn law_ended_request_is_not_pending(
    before: Set<Wanted>,
    request: RequestView,
    action: ProofAction,
    r: Result<ProofStep, SyncError>,
    after: Set<Wanted>,
)
    requires
        action_taken(before, request, action, r, after),
        r is Err || r->Ok_0 is Store,
        action matches ProofAction::Proof(packet) ==> (packet.root@, packet.key@)
            == request.wanted(),
    ensures
        !after.contains(request.wanted()),
{
}

/// No proof that was not asked for is stored, and none is taken twice.
pub proof fn law_only_requested_proofs_are_taken(
    before: Set<Wanted>,
    packet: ProofPacket,
    r: Result<ProofValidationResult, SyncError>,
    after: Set<Wanted>,
)
    requires
        proof_ingested(before, packet, r, after),
    ensures
        r is Ok ==> before.contains((packet.root@, packet.key@)),
        !after.contains((packet.root@, packet.key@)),
        after.subset_of(before),
{
}

/// A proof that comes to a result was verified against the root and for the
/// key that it was sent as.
pub proof fn law_results_are_verified(packet: ProofPacket)
    requires
        validated(packet) is Ok,
    ensures
        packet.parsed is Ok,
        packet.parsed->Ok_0.verified == Ok::<bool, ProofError>(true),
        packet.parsed->Ok_0.root@ == packet.root@,
        packet.parsed->Ok_0.key@ == packet.key@,
{
}

/// A verified proof is stored as what it proves: for the name that was asked for,
/// securely, and with the block of the request. A proof of inclusion gives the
/// data of the name state in it, one of non-inclusion that the name has no value.
pub proof fn law_proof_is_stored_as_proven<S: VerifiedResourceValueSink>(
    pre: S,
    request: RequestView,
    result: ValidationView,
    decoded: Result<Vec<ResourceRecord>, String>,
    data: Seq<u8>,
    tail: Seq<u8>,
    r: Result<ValidationView, SyncError>,
    post: S,
) -> (stored: (ValueView, Result<(), ResolverError>))
    requires
        proof_stored(pre, request, result, decoded, r, post),
        encode_utf8(request.root_name).len() <= 63,
        data.len() <= 512,
        tail.len() >= 10,
        result.kind == ProofKind::Inclusion ==> result.value == Some(
            name_state(encode_utf8(request.root_name), data, tail),
        ),
    ensures
        S::stores(pre, stored.0, stored.1, post),
        stored.1 is Ok ==> r == Ok::<ValidationView, SyncError>(result),
        stored.1 matches Err(error) ==> r == Err::<ValidationView, _>(SyncError::Resolver(error)),
        stored.0.root_name == request.root_name,
        stored.0.name_hash == request.name_hash,
        stored.0.secure,
        request.height matches Some(height) ==> stored.0.anchor == Some(
            AnchorView { tree_root: result.root, height },
        ),
        request.height is None ==> stored.0.anchor is None,
        result.kind == ProofKind::Inclusion ==> (stored.0.value matches Some(payload)
            && payload.bytes == data && (decoded matches Ok(records) ==> payload.decoded == Ok::<
            _,
            String,
        >(crate::dns::record_views(records@)))),
        result.kind == ProofKind::NonInclusion ==> stored.0.value is None,
{
    if result.kind == ProofKind::Inclusion {
        law_name_state_gives_back_its_value(encode_utf8(request.root_name), data, tail);
    }
    let value = anchored(
        value_of_proof(request.root_name, request.name_hash, result, decoded)->Ok_0,
        result.root,
        request.height,
    );
    let reply = choose|reply: Result<(), ResolverError>|
        #[trigger] S::stores(pre, value, reply, post) && r == match reply {
            Ok(_) => Ok::<ValidationView, SyncError>(result),
            Err(error) => Err(SyncError::Resolver(error)),
        };
    (value, reply)
}

} // verus!
