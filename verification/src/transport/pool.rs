//! Connections that are kept for the next request.
use crate::text;
use crate::transport::request;
use crate::transport::types;
use crate::transport::types::{
    DaneDecision, InspectionView, OriginRequest, RequestView, TlsCertificateInspection,
    TransportError,
};
use vstd::prelude::*;
use vstd::string::*;

verus! {

/// The most connections that are kept for one origin.
pub const MAX_HTTP11_POOL_PER_ORIGIN: usize = 2;

/// What connections have in common that can stand in for each other.
#[derive(Clone, Debug, PartialEq, Eq)]
pub struct Http11PoolKey {
    pub scheme: String,
    pub host: String,
    pub connect_host: String,
    pub port: u16,
    pub tls_key: String,
}

pub struct KeyView {
    pub scheme: Seq<char>,
    pub host: Seq<char>,
    pub connect_host: Seq<char>,
    pub port: u16,
    pub tls_key: Seq<char>,
}

impl View for Http11PoolKey {
    type V = KeyView;

    open spec fn view(&self) -> KeyView {
        KeyView {
            scheme: self.scheme@,
            host: self.host@,
            connect_host: self.connect_host@,
            port: self.port,
            tls_key: self.tls_key@,
        }
    }
}

impl Http11PoolKey {
    pub fn same(&self, other: &Http11PoolKey) -> (r: bool)
        ensures
            r == (self@ == other@),
    {
        text::same_text(self.scheme.as_str(), other.scheme.as_str()) && text::same_text(
            self.host.as_str(),
            other.host.as_str(),
        ) && text::same_text(self.connect_host.as_str(), other.connect_host.as_str()) && self.port
            == other.port && text::same_text(self.tls_key.as_str(), other.tls_key.as_str())
    }
}

/// The key of a request: where it goes, and how its certificate is judged.
pub open spec fn key_of(request: RequestView) -> KeyView {
    KeyView {
        scheme: text::lower(request.scheme),
        host: text::lower(request.host),
        connect_host: text::lower(types::connection_host(request)),
        port: request.port,
        tls_key: request::tls_key(request.tls),
    }
}

pub fn http11_pool_key(request: &OriginRequest) -> (r: Http11PoolKey)
    ensures
        r@ == key_of(request@),
{
    let connect_host = match &request.connect_host {
        Some(host) => text::to_lower(host.as_str()),
        None => text::to_lower(request.host.as_str()),
    };
    Http11PoolKey {
        scheme: text::to_lower(request.scheme.as_str()),
        host: text::to_lower(request.host.as_str()),
        connect_host,
        port: request.port,
        tls_key: request::tls_validation_key(&request.tls),
    }
}

/// A connection, by the number its owner knows it under, and how its
/// certificate was accepted.
#[derive(Clone, Debug, PartialEq, Eq)]
pub struct PooledHttp11Connection {
    pub id: u64,
    pub dane_decision: DaneDecision,
    pub tls_inspection: Option<TlsCertificateInspection>,
}

pub struct ConnectionView {
    pub id: u64,
    pub dane_decision: DaneDecision,
    pub tls_inspection: Option<InspectionView>,
}

impl View for PooledHttp11Connection {
    type V = ConnectionView;

    open spec fn view(&self) -> ConnectionView {
        ConnectionView {
            id: self.id,
            dane_decision: self.dane_decision,
            tls_inspection: types::inspection_view(self.tls_inspection),
        }
    }
}

#[derive(Clone, Debug, PartialEq, Eq)]
pub struct PoolSlot {
    pub key: Http11PoolKey,
    pub connection: PooledHttp11Connection,
}

pub struct SlotView {
    pub key: KeyView,
    pub connection: ConnectionView,
}

impl View for PoolSlot {
    type V = SlotView;

    open spec fn view(&self) -> SlotView {
        SlotView { key: self.key@, connection: self.connection@ }
    }
}

pub open spec fn slot_views(slots: Seq<PoolSlot>) -> Seq<SlotView> {
    Seq::new(slots.len(), |i: int| slots[i]@)
}

/// The connections that are kept, the oldest first.
#[derive(Clone, Debug, PartialEq, Eq)]
pub struct ConnectionPool {
    pub slots: Vec<PoolSlot>,
}

impl View for ConnectionPool {
    type V = Seq<SlotView>;

    open spec fn view(&self) -> Seq<SlotView> {
        slot_views(self.slots@)
    }
}

/// How many connections are kept under a key.
pub open spec fn kept(slots: Seq<SlotView>, key: KeyView) -> nat
    decreases slots.len(),
{
    if slots.len() == 0 {
        0
    } else {
        kept(slots.drop_last(), key) + (if slots.last().key == key {
            1nat
        } else {
            0nat
        })
    }
}

/// The place of the oldest connection under a key; the length if there is none.
pub open spec fn oldest(slots: Seq<SlotView>, key: KeyView) -> nat
    decreases slots.len(),
{
    if slots.len() == 0 {
        0
    } else {
        let at = oldest(slots.drop_last(), key);
        if at < slots.len() - 1 || slots.last().key == key {
            at
        } else {
            slots.len()
        }
    }
}

pub proof fn lemma_oldest(slots: Seq<SlotView>, key: KeyView)
    ensures
        oldest(slots, key) <= slots.len(),
        oldest(slots, key) < slots.len() ==> slots[oldest(slots, key) as int].key == key,
        oldest(slots, key) < slots.len() <==> kept(slots, key) > 0,
    decreases slots.len(),
{
    if slots.len() > 0 {
        lemma_oldest(slots.drop_last(), key);
    }
}

/// The pool after the oldest connection under a key was taken.
pub open spec fn taken(slots: Seq<SlotView>, key: KeyView) -> Seq<SlotView> {
    if oldest(slots, key) < slots.len() {
        slots.remove(oldest(slots, key) as int)
    } else {
        slots
    }
}

/// The pool after a connection was put back: where the origin has its fill the
/// oldest goes.
pub open spec fn put(slots: Seq<SlotView>, slot: SlotView) -> Seq<SlotView> {
    (if kept(slots, slot.key) >= MAX_HTTP11_POOL_PER_ORIGIN {
        taken(slots, slot.key)
    } else {
        slots
    }).push(slot)
}

impl ConnectionPool {
    pub fn new() -> (r: Self)
        ensures
            r@ == Seq::<SlotView>::empty(),
    {
        let r = ConnectionPool { slots: Vec::new() };
        assert(r@ =~= Seq::empty());
        r
    }

    fn scan(&self, key: &Http11PoolKey) -> (r: (usize, usize))
        ensures
            r.0 == oldest(self@, key@),
            r.1 == kept(self@, key@),
    {
        let mut at: usize = 0;
        let mut count: usize = 0;
        let mut i: usize = 0;
        while i < self.slots.len()
            invariant
                i <= self.slots@.len(),
                count <= i,
                at <= i,
                at == oldest(self@.take(i as int), key@),
                count == kept(self@.take(i as int), key@),
            decreases self.slots@.len() - i,
        {
            assert(self@.take(i + 1).drop_last() =~= self@.take(i as int));
            assert(self@.take(i + 1).last() == self.slots@[i as int]@);
            if self.slots[i].key.same(key) {
                count = count + 1;
            } else if at == i {
                at = i + 1;
            }
            i = i + 1;
        }
        assert(self@.take(i as int) =~= self@);
        (at, count)
    }

    fn remove_at(&mut self, at: usize) -> (r: PooledHttp11Connection)
        requires
            at < old(self)@.len(),
        ensures
            final(self)@ == old(self)@.remove(at as int),
            r@ == old(self)@[at as int].connection,
    {
        let ghost before = self@;
        assert(before[at as int] == self.slots@[at as int]@);
        let slot = self.slots.remove(at);
        assert(self@ =~= before.remove(at as int));
        slot.connection
    }

    /// Takes the oldest connection under a key.
    pub fn take_http11_connection(&mut self, key: &Http11PoolKey) -> (r: Option<
        PooledHttp11Connection,
    >)
        ensures
            final(self)@ == taken(old(self)@, key@),
            match r {
                Some(connection) => oldest(old(self)@, key@) < old(self)@.len() && connection@
                    == old(self)@[oldest(old(self)@, key@) as int].connection,
                None => kept(old(self)@, key@) == 0,
            },
    {
        proof {
            lemma_oldest(self@, key@);
        }
        let (at, count) = self.scan(key);
        assert(self@.len() == self.slots@.len());
        if at < self.slots.len() {
            Some(self.remove_at(at))
        } else {
            None
        }
    }

    /// Keeps a connection. Gives back the one that goes for it, if one does.
    pub fn put_http11_connection(&mut self, key: Http11PoolKey, connection: PooledHttp11Connection) -> (r:
        Option<PooledHttp11Connection>)
        ensures
            final(self)@ == put(old(self)@, SlotView { key: key@, connection: connection@ }),
            match r {
                Some(gone) => kept(old(self)@, key@) >= MAX_HTTP11_POOL_PER_ORIGIN && gone@ == old(
                    self)@[oldest(old(self)@, key@) as int].connection,
                None => kept(old(self)@, key@) < MAX_HTTP11_POOL_PER_ORIGIN,
            },
    {
        proof {
            lemma_oldest(self@, key@);
        }
        let (at, count) = self.scan(&key);
        assert(self@.len() == self.slots@.len());
        let gone = if count >= MAX_HTTP11_POOL_PER_ORIGIN {
            Some(self.remove_at(at))
        } else {
            None
        };
        let ghost before = self@;
        let slot = PoolSlot { key, connection };
        let ghost seen = slot@;
        self.slots.push(slot);
        assert(self@ =~= before.push(seen));
        gone
    }
}

/// Why a request over a kept connection came to nothing.
#[derive(Clone, Debug, PartialEq, Eq)]
pub enum PooledEvent {
    /// The connection is not there any more.
    Gone,
    /// The exchange failed, after so many bytes of the body had been handed on.
    Failed { error: TransportError, handed_on: u64 },
}

/// What is done about it.
#[derive(Clone, Debug, PartialEq, Eq)]
pub enum PooledStep {
    /// The request is sent again, over a new connection.
    Fresh,
    /// The request fails.
    Fail(TransportError),
}

/// A request is sent again only as long as nothing of a body has been handed on:
/// what was handed on cannot be taken back.
pub open spec fn step_after(event: PooledEvent) -> PooledStep {
    match event {
        PooledEvent::Gone => PooledStep::Fresh,
        PooledEvent::Failed { error, handed_on } => if handed_on == 0 {
            PooledStep::Fresh
        } else {
            PooledStep::Fail(error)
        },
    }
}

pub fn after_pooled(event: PooledEvent) -> (r: PooledStep)
    ensures
        r == step_after(event),
{
    match event {
        PooledEvent::Gone => PooledStep::Fresh,
        PooledEvent::Failed { error, handed_on } => if handed_on == 0 {
            PooledStep::Fresh
        } else {
            PooledStep::Fail(error)
        },
    }
}

/// What is handed on of two attempts, where the second is made only if the step
/// after the first says so.
pub open spec fn handed_on_in_all(first: Seq<u8>, step: PooledStep, second: Seq<u8>) -> Seq<u8> {
    match step {
        PooledStep::Fresh => first + second,
        PooledStep::Fail(_) => first,
    }
}

/// A body is never handed on twice: after a failed first attempt all that is
/// handed on comes from the second, or the request fails with the first's error.
pub proof fn law_body_comes_from_one_response(
    error: TransportError,
    first: Seq<u8>,
    second: Seq<u8>,
)
    requires
        first.len() <= u64::MAX,
    ensures
        ({
            let step = step_after(PooledEvent::Failed { error, handed_on: first.len() as u64 });
            if first.len() == 0 {
                step == PooledStep::Fresh && handed_on_in_all(first, step, second) == second
            } else {
                step == PooledStep::Fail(error) && handed_on_in_all(first, step, second) == first
            }
        }),
{
    if first.len() == 0 {
        assert(first + second =~= second);
    }
}

proof fn lemma_kept_removed(slots: Seq<SlotView>, at: int, key: KeyView)
    requires
        0 <= at < slots.len(),
    ensures
        kept(slots.remove(at), key) == kept(slots, key) - (if slots[at].key == key {
            1int
        } else {
            0int
        }),
    decreases slots.len(),
{
    let rest = slots.remove(at);
    if at == slots.len() - 1 {
        assert(rest =~= slots.drop_last());
    } else {
        lemma_kept_removed(slots.drop_last(), at, key);
        assert(rest.drop_last() =~= slots.drop_last().remove(at));
        assert(rest.last() == slots.last());
    }
}

/// No origin ever has more connections in the pool than its share.
pub proof fn law_pool_is_bounded(slots: Seq<SlotView>, slot: SlotView, key: KeyView)
    requires
        kept(slots, key) <= MAX_HTTP11_POOL_PER_ORIGIN,
        kept(slots, slot.key) <= MAX_HTTP11_POOL_PER_ORIGIN,
    ensures
        kept(put(slots, slot), key) <= MAX_HTTP11_POOL_PER_ORIGIN,
        kept(taken(slots, slot.key), key) <= MAX_HTTP11_POOL_PER_ORIGIN,
{
    lemma_oldest(slots, slot.key);
    if oldest(slots, slot.key) < slots.len() {
        lemma_kept_removed(slots, oldest(slots, slot.key) as int, key);
        lemma_kept_removed(slots, oldest(slots, slot.key) as int, slot.key);
    }
    let base = if kept(slots, slot.key) >= MAX_HTTP11_POOL_PER_ORIGIN {
        taken(slots, slot.key)
    } else {
        slots
    };
    assert(base.push(slot).drop_last() =~= base);
}

/// A connection that is put back is taken again, if no other is kept for its
/// origin.
pub proof fn law_put_connection_is_taken_again(slots: Seq<SlotView>, slot: SlotView)
    requires
        kept(slots, slot.key) == 0,
    ensures
        oldest(put(slots, slot), slot.key) == slots.len(),
        put(slots, slot)[slots.len() as int] == slot,
        taken(put(slots, slot), slot.key) == slots,
{
    lemma_oldest(slots, slot.key);
    assert(put(slots, slot).drop_last() =~= slots);
    assert(put(slots, slot).remove(slots.len() as int) =~= slots);
}

/// A connection is used again only for a request that goes to the same place in
/// the same way: the scheme, the host, the host that is connected to, and the
/// port, letters in either case taken for one, and the same validation.
pub proof fn law_shared_connection_goes_to_one_place(a: RequestView, b: RequestView)
    ensures
        key_of(a) == key_of(b) <==> text::same_ignoring_case(a.scheme, b.scheme)
            && text::same_ignoring_case(a.host, b.host) && text::same_ignoring_case(
            types::connection_host(a),
            types::connection_host(b),
        ) && a.port == b.port && request::tls_key(a.tls) == request::tls_key(b.tls),
{
}

/// Keeping or taking a connection leaves those of other origins.
pub proof fn law_other_origins_keep_their_connections(slots: Seq<SlotView>, slot: SlotView, i: int)
    requires
        0 <= i < slots.len(),
        slots[i].key != slot.key,
    ensures
        put(slots, slot).contains(slots[i]),
        taken(slots, slot.key).contains(slots[i]),
{
    lemma_oldest(slots, slot.key);
    let at = oldest(slots, slot.key) as int;
    let rest = taken(slots, slot.key);
    let now_at = if at < i {
        i - 1
    } else {
        i
    };
    assert(rest[now_at] == slots[i]);
    let after = put(slots, slot);
    if kept(slots, slot.key) >= MAX_HTTP11_POOL_PER_ORIGIN {
        assert(after[now_at] == slots[i]);
    } else {
        assert(after[i] == slots[i]);
    }
}

/// A connection is always kept, and for it none has to go while its origin has
/// fewer than two.
pub proof fn law_connection_is_kept(slots: Seq<SlotView>, slot: SlotView)
    ensures
        put(slots, slot).len() > 0 && put(slots, slot).last() == slot,
        kept(slots, slot.key) < 2 ==> put(slots, slot) == slots.push(slot),
        kept(put(slots, slot), slot.key) > 0,
{
    let after = put(slots, slot);
    assert(after.drop_last() =~= (if kept(slots, slot.key) >= MAX_HTTP11_POOL_PER_ORIGIN {
        taken(slots, slot.key)
    } else {
        slots
    }));
}

/// The connection that is taken, or that goes for another, is the one that was kept
/// for longest.
pub proof fn law_longest_kept_comes_first(slots: Seq<SlotView>, key: KeyView, i: int)
    requires
        0 <= i < slots.len(),
        slots[i].key == key,
    ensures
        oldest(slots, key) <= i,
    decreases slots.len(),
{
    if i < slots.len() - 1 {
        assert(slots.drop_last()[i] == slots[i]);
        law_longest_kept_comes_first(slots.drop_last(), key, i);
    } else {
        lemma_oldest(slots.drop_last(), key);
    }
}

} // verus!
