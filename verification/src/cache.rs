//! A resolver that remembers answers, and that names do not exist, for a while.
use crate::error::ResolverError;
use crate::resolver;
use crate::resolver::{Reply, RequestView, ResolutionAnswer, ResolutionRequest, Resolver};
use crate::text;
use vstd::prelude::*;
use vstd::string::*;

verus! {

/// What is remembered of a resolution.
#[derive(Clone, Debug, PartialEq, Eq)]
pub enum CachedResolution {
    Answer(ResolutionAnswer),
    NameNotFound,
}

impl View for CachedResolution {
    type V = Reply;

    open spec fn view(&self) -> Reply {
        match self {
            CachedResolution::Answer(answer) => Ok(answer@),
            CachedResolution::NameNotFound => Err(ResolverError::NameNotFound),
        }
    }
}

impl CachedResolution {
    pub fn copy(&self) -> (r: Self)
        ensures
            r@ == self@,
    {
        match self {
            CachedResolution::Answer(answer) => CachedResolution::Answer(answer.copy()),
            CachedResolution::NameNotFound => CachedResolution::NameNotFound,
        }
    }

    pub fn into_result(self) -> (r: Result<ResolutionAnswer, ResolverError>)
        ensures
            resolver::answer_reply(r) == self@,
    {
        match self {
            CachedResolution::Answer(answer) => Ok(answer),
            CachedResolution::NameNotFound => Err(ResolverError::NameNotFound),
        }
    }
}

/// Whether a reply is worth remembering: an answer, or that the name does not
/// exist. Other errors may pass.
pub open spec fn is_cacheable(reply: Reply) -> bool {
    match reply {
        Ok(_) => true,
        Err(error) => error is NameNotFound,
    }
}

#[derive(Clone, Debug, PartialEq, Eq)]
pub struct CacheEntry {
    pub request: ResolutionRequest,
    pub value: CachedResolution,
    pub expires_at_ms: u64,
}

pub struct EntryView {
    pub request: RequestView,
    pub value: Reply,
    pub expires_at_ms: u64,
}

impl View for CacheEntry {
    type V = EntryView;

    open spec fn view(&self) -> EntryView {
        EntryView {
            request: self.request@,
            value: self.value@,
            expires_at_ms: self.expires_at_ms,
        }
    }
}

pub open spec fn entry_views(entries: Seq<CacheEntry>) -> Seq<EntryView> {
    Seq::new(entries.len(), |i: int| entries[i]@)
}

/// The entry for a request, counted from the front; the number of entries where
/// there is none.
pub open spec fn entry_of(entries: Seq<EntryView>, request: RequestView) -> nat
    decreases entries.len(),
{
    if entries.len() == 0 || entries[0].request == request {
        0
    } else {
        1 + entry_of(entries.skip(1), request)
    }
}

/// The entries without the one for a request.
pub open spec fn forgotten(entries: Seq<EntryView>, request: RequestView) -> Seq<EntryView> {
    let at = entry_of(entries, request);
    if at < entries.len() {
        entries.remove(at as int)
    } else {
        entries
    }
}

/// What is remembered for a request at a time.
pub open spec fn remembered(entries: Seq<EntryView>, request: RequestView, now_ms: u64) -> Option<
    EntryView,
> {
    let at = entry_of(entries, request);
    if at < entries.len() && now_ms < entries[at as int].expires_at_ms {
        Some(entries[at as int])
    } else {
        None
    }
}

/// The entries after one is put at the end, where the last used stand; the
/// first leave once there are more than `max_entries`.
pub open spec fn with_newest(entries: Seq<EntryView>, entry: EntryView, max_entries: usize) -> Seq<
    EntryView,
> {
    let all = forgotten(entries, entry.request).push(entry);
    if all.len() > max_entries {
        all.skip(all.len() - max_entries)
    } else {
        all
    }
}

/// When something that is stored now expires.
pub open spec fn expiry(now_ms: u64, ttl_ms: u64) -> u64 {
    if now_ms + ttl_ms > u64::MAX {
        u64::MAX
    } else {
        (now_ms + ttl_ms) as u64
    }
}

/// A resolver with a memory of at most `max_entries` replies, each kept for
/// `ttl_ms` milliseconds after `now_ms`, which the owner keeps up to date.
pub struct CachedResolver<R> {
    pub inner: R,
    pub entries: Vec<CacheEntry>,
    pub max_entries: usize,
    pub ttl_ms: u64,
    pub now_ms: u64,
}

impl<R> CachedResolver<R> {
    pub fn new(inner: R, max_entries: usize, ttl_ms: u64) -> (r: Self)
        ensures
            r.inner == inner,
            entry_views(r.entries@) == Seq::<EntryView>::empty(),
            r.max_entries == max_entries,
            r.ttl_ms == ttl_ms,
            r.now_ms == 0,
    {
        let entries: Vec<CacheEntry> = Vec::new();
        assert(entry_views(entries@) =~= Seq::empty());
        CachedResolver { inner, entries, max_entries, ttl_ms, now_ms: 0 }
    }

    pub fn into_inner(self) -> (r: R)
        ensures
            r == self.inner,
    {
        self.inner
    }

    fn find_entry(&self, request: &ResolutionRequest) -> (r: usize)
        ensures
            r == entry_of(entry_views(self.entries@), request@),
            r <= self.entries.len(),
    {
        let ghost all = entry_views(self.entries@);
        let mut i: usize = 0;
        assert(all.skip(0) =~= all);
        while i < self.entries.len()
            invariant
                i <= self.entries.len(),
                all == entry_views(self.entries@),
                entry_of(all, request@) == i + entry_of(all.skip(i as int), request@),
            decreases self.entries.len() - i,
        {
            proof {
                assert(all.skip(i as int)[0] == self.entries@[i as int]@);
                assert(all.skip(i as int).skip(1) =~= all.skip(i + 1));
            }
            let entry = &self.entries[i];
            if entry.request.qtype == request.qtype && text::same_text(
                &entry.request.qname,
                &request.qname,
            ) {
                return i;
            }
            i = i + 1;
        }
        i
    }

    fn put_newest(&mut self, request: ResolutionRequest, value: CachedResolution, expires_at_ms: u64)
        ensures
            entry_views(final(self).entries@) == with_newest(
                entry_views(old(self).entries@),
                EntryView { request: request@, value: value@, expires_at_ms },
                old(self).max_entries,
            ),
            final(self).inner == old(self).inner,
            final(self).max_entries == old(self).max_entries,
            final(self).ttl_ms == old(self).ttl_ms,
            final(self).now_ms == old(self).now_ms,
    {
        let ghost start = entry_views(self.entries@);
        let ghost entry = EntryView { request: request@, value: value@, expires_at_ms };
        let at: usize = self.find_entry(&request);
        if at < self.entries.len() {
            let _ = self.entries.remove(at);
            assert(entry_views(self.entries@) =~= start.remove(at as int));
        }
        let ghost kept = entry_views(self.entries@);
        self.entries.push(CacheEntry { request, value, expires_at_ms });
        let ghost all = kept.push(entry);
        assert(entry_views(self.entries@) =~= all);
        assert(all.skip(0) =~= all);
        let max: usize = self.max_entries;
        let ghost mut gone: int = 0;
        while self.entries.len() > max
            invariant
                0 <= gone <= all.len(),
                max == self.max_entries,
                self.inner == old(self).inner,
                self.max_entries == old(self).max_entries,
                self.ttl_ms == old(self).ttl_ms,
                self.now_ms == old(self).now_ms,
                entry_views(self.entries@) == all.skip(gone),
                self.entries@.len() == all.len() - gone,
                gone > 0 ==> all.len() - gone >= max,
            decreases self.entries.len(),
        {
            let ghost before = entry_views(self.entries@);
            let _ = self.entries.remove(0);
            proof {
                assert(entry_views(self.entries@) =~= before.remove(0));
                assert(all.skip(gone).remove(0) =~= all.skip(gone + 1));
                gone = gone + 1;
            }
        }
    }
}

/// Whether asking the inner resolver on a miss may end in `reply`.
pub open spec fn missed<R: Resolver>(
    pre: R,
    entries: Seq<EntryView>,
    max_entries: usize,
    expires_at_ms: u64,
    request: RequestView,
    reply: Reply,
    post: R,
    after: Seq<EntryView>,
) -> bool {
    &&& R::resolves(pre, request, reply, post)
    &&& after == if is_cacheable(reply) {
        with_newest(entries, EntryView { request, value: reply, expires_at_ms }, max_entries)
    } else {
        entries
    }
}

impl<R: Resolver> Resolver for CachedResolver<R> {
    open spec fn resolves(pre: Self, request: RequestView, reply: Reply, post: Self) -> bool {
        &&& post.max_entries == pre.max_entries
        &&& post.ttl_ms == pre.ttl_ms
        &&& post.now_ms == pre.now_ms
        &&& match remembered(entry_views(pre.entries@), request, pre.now_ms) {
            Some(entry) => {
                &&& reply == entry.value
                &&& post.inner == pre.inner
                &&& entry_views(post.entries@) == with_newest(
                    entry_views(pre.entries@),
                    entry,
                    pre.max_entries,
                )
            },
            None => missed(
                pre.inner,
                entry_views(pre.entries@),
                pre.max_entries,
                expiry(pre.now_ms, pre.ttl_ms),
                request,
                reply,
                post.inner,
                entry_views(post.entries@),
            ),
        }
    }

    fn resolve(&mut self, request: &ResolutionRequest) -> (r: Result<
        ResolutionAnswer,
        ResolverError,
    >) {
        let ghost pre = *self;
        let ghost start = entry_views(self.entries@);
        let at: usize = self.find_entry(request);
        if at < self.entries.len() && self.now_ms < self.entries[at].expires_at_ms {
            assert(start[at as int] == self.entries@[at as int]@);
            let expires_at_ms: u64 = self.entries[at].expires_at_ms;
            let cached = self.entries[at].value.copy();
            let value = cached.copy();
            proof {
                lemma_entry_of(start, request@);
                assert(value@ == start[at as int].value);
            }
            self.put_newest(request.copy(), value, expires_at_ms);
            return cached.into_result();
        }
        let r = self.inner.resolve(request);
        let ghost raw = resolver::answer_reply(r);
        assert(R::resolves(pre.inner, request@, raw, self.inner));
        let expires_at_ms: u64 = self.now_ms.saturating_add(self.ttl_ms);
        match &r {
            Ok(answer) => {
                self.put_newest(
                    request.copy(),
                    CachedResolution::Answer(answer.copy()),
                    expires_at_ms,
                );
            },
            Err(ResolverError::NameNotFound) => {
                self.put_newest(request.copy(), CachedResolution::NameNotFound, expires_at_ms);
            },
            Err(_) => {},
        }
        r
    }
}

proof fn lemma_entry_of(entries: Seq<EntryView>, request: RequestView)
    ensures
        entry_of(entries, request) <= entries.len(),
        entry_of(entries, request) < entries.len() ==> entries[entry_of(entries, request) as int].request
            == request,
        forall|i: int|
            0 <= i < entry_of(entries, request) ==> (#[trigger] entries[i]).request != request,
    decreases entries.len(),
{
    if entries.len() > 0 && entries[0].request != request {
        let rest = entries.skip(1);
        lemma_entry_of(rest, request);
        assert forall|i: int| 0 <= i < entry_of(entries, request) implies (
        #[trigger] entries[i]).request != request by {
            if i > 0 {
                assert(entries[i] == rest[i - 1]);
            }
        }
    }
}

proof fn lemma_entry_of_is(entries: Seq<EntryView>, request: RequestView, at: int)
    requires
        0 <= at <= entries.len(),
        forall|i: int| 0 <= i < at ==> (#[trigger] entries[i]).request != request,
        at < entries.len() ==> entries[at].request == request,
    ensures
        entry_of(entries, request) == at,
    decreases entries.len(),
{
    if entries.len() > 0 && entries[0].request != request {
        let rest = entries.skip(1);
        assert forall|i: int| 0 <= i < at - 1 implies (#[trigger] rest[i]).request != request by {
            assert(rest[i] == entries[i + 1]);
        }
        lemma_entry_of_is(rest, request, at - 1);
    }
}

/// The memory never holds more than it may.
pub proof fn law_memory_is_bounded(entries: Seq<EntryView>, entry: EntryView, max_entries: usize)
    ensures
        with_newest(entries, entry, max_entries).len() <= max_entries,
{
}

/// No request is remembered twice.
pub open spec fn one_entry_each(entries: Seq<EntryView>) -> bool {
    forall|i: int, j: int|
        0 <= i < j < entries.len() ==> (#[trigger] entries[i]).request != (
        #[trigger] entries[j]).request
}

proof fn lemma_forgotten(entries: Seq<EntryView>, request: RequestView)
    requires
        one_entry_each(entries),
    ensures
        one_entry_each(forgotten(entries, request)),
        forall|i: int|
            0 <= i < forgotten(entries, request).len() ==> (#[trigger] forgotten(
                entries,
                request,
            )[i]).request != request,
{
    lemma_entry_of(entries, request);
    let at = entry_of(entries, request);
    let rest = forgotten(entries, request);
    assert forall|i: int| 0 <= i < rest.len() implies (#[trigger] rest[i]).request != request by {
        if i < at {
            assert(rest[i] == entries[i]);
        } else {
            assert(rest[i] == entries[i + 1]);
            assert(entries[at as int].request == request);
        }
    }
    assert forall|i: int, j: int| 0 <= i < j < rest.len() implies (#[trigger] rest[i]).request != (
    #[trigger] rest[j]).request by {
        let a = if at < entries.len() && i >= at { i + 1 } else { i };
        let b = if at < entries.len() && j >= at { j + 1 } else { j };
        assert(rest[i] == entries[a] && rest[j] == entries[b]);
    }
}

/// What was just stored is remembered until it expires, where the memory holds
/// anything at all; and no request comes to be remembered twice.
pub proof fn law_remembers_the_newest(
    entries: Seq<EntryView>,
    entry: EntryView,
    max_entries: usize,
    now_ms: u64,
)
    requires
        one_entry_each(entries),
        max_entries > 0,
    ensures
        one_entry_each(with_newest(entries, entry, max_entries)),
        remembered(with_newest(entries, entry, max_entries), entry.request, now_ms) == if now_ms
            < entry.expires_at_ms {
            Some(entry)
        } else {
            None
        },
{
    lemma_forgotten(entries, entry.request);
    let kept = forgotten(entries, entry.request);
    let all = kept.push(entry);
    let cut = if all.len() > max_entries {
        all.len() - max_entries
    } else {
        0
    };
    let after = with_newest(entries, entry, max_entries);
    assert(after =~= all.skip(cut));
    assert forall|i: int, j: int| 0 <= i < j < after.len() implies (#[trigger] after[i]).request
        != (#[trigger] after[j]).request by {
        assert(after[i] == all[i + cut] && after[j] == all[j + cut]);
        if j + cut < kept.len() {
            assert(all[i + cut] == kept[i + cut] && all[j + cut] == kept[j + cut]);
        } else {
            assert(all[i + cut] == kept[i + cut]);
        }
    }
    let last = after.len() - 1;
    assert(after[last] == entry);
    assert forall|i: int| 0 <= i < last implies (#[trigger] after[i]).request != entry.request by {
        assert(after[i] == kept[i + cut]);
    }
    lemma_entry_of_is(after, entry.request, last);
}

/// A reply that was worth remembering is given again until it expires, without
/// asking the inner resolver.
pub proof fn law_fresh_reply_is_given_again<R: Resolver>(
    pre: CachedResolver<R>,
    request: RequestView,
    reply: Reply,
    mid: CachedResolver<R>,
    now_ms: u64,
    again: Reply,
    post: CachedResolver<R>,
)
    requires
        one_entry_each(entry_views(pre.entries@)),
        pre.max_entries > 0,
        remembered(entry_views(pre.entries@), request, pre.now_ms) is None,
        CachedResolver::<R>::resolves(pre, request, reply, mid),
        is_cacheable(reply),
        now_ms < expiry(pre.now_ms, pre.ttl_ms),
        CachedResolver::<R>::resolves(
            (CachedResolver::<R> { now_ms, ..mid }),
            request,
            again,
            post,
        ),
    ensures
        again == reply,
        post.inner == mid.inner,
{
    let entry = EntryView {
        request,
        value: reply,
        expires_at_ms: expiry(pre.now_ms, pre.ttl_ms),
    };
    law_remembers_the_newest(entry_views(pre.entries@), entry, pre.max_entries, now_ms);
}

/// A reply that has run out is not given again: the inner resolver is asked.
pub proof fn law_expired_reply_is_asked_for_again<R: Resolver>(
    pre: CachedResolver<R>,
    request: RequestView,
    reply: Reply,
    post: CachedResolver<R>,
)
    requires
        CachedResolver::<R>::resolves(pre, request, reply, post),
        forall|i: int|
            0 <= i < pre.entries@.len() && (#[trigger] entry_views(pre.entries@)[i]).request
                == request ==> entry_views(pre.entries@)[i].expires_at_ms <= pre.now_ms,
    ensures
        R::resolves(pre.inner, request, reply, post.inner),
{
    let entries = entry_views(pre.entries@);
    lemma_entry_is_its_own(entries, request);
}

proof fn lemma_entry_is_its_own(entries: Seq<EntryView>, request: RequestView)
    ensures
        entry_of(entries, request) <= entries.len(),
        entry_of(entries, request) < entries.len() ==> entries[entry_of(
            entries,
            request,
        ) as int].request == request,
    decreases entries.len(),
{
    if entries.len() > 0 && entries[0].request != request {
        lemma_entry_is_its_own(entries.skip(1), request);
    }
}

/// A reply is kept for its time to live, counted from when it was stored.
pub proof fn law_reply_lives_as_long_as_told(now_ms: u64, ttl_ms: u64)
    ensures
        expiry(now_ms, ttl_ms) as int == now_ms + ttl_ms || (expiry(now_ms, ttl_ms) == u64::MAX
            && now_ms + ttl_ms > u64::MAX),
{
}

/// Failures that may pass are not remembered: only answers, and that a name does
/// not exist.
pub proof fn law_passing_failures_are_not_remembered<R: Resolver>(
    pre: CachedResolver<R>,
    request: RequestView,
    error: ResolverError,
    post: CachedResolver<R>,
)
    requires
        remembered(entry_views(pre.entries@), request, pre.now_ms) is None,
        CachedResolver::<R>::resolves(pre, request, Err(error), post),
        error != ResolverError::NameNotFound,
    ensures
        entry_views(post.entries@) == entry_views(pre.entries@),
{
}

/// Storing a reply makes only the one leave that was not used for longest, and
/// none while there is room.
pub proof fn law_longest_unused_leaves(
    entries: Seq<EntryView>,
    entry: EntryView,
    max_entries: usize,
    i: int,
)
    requires
        one_entry_each(entries),
        entries.len() <= max_entries,
        0 <= i < entries.len(),
        entries[i].request != entry.request,
        i > 0 || entries.len() < max_entries || exists|k: int|
            0 <= k < entries.len() && (#[trigger] entries[k]).request == entry.request,
    ensures
        with_newest(entries, entry, max_entries).contains(entries[i]),
{
    let at = entry_of(entries, entry.request) as int;
    lemma_entry_is_its_own(entries, entry.request);
    if exists|k: int| 0 <= k < entries.len() && (#[trigger] entries[k]).request == entry.request {
        let k = choose|k: int|
            0 <= k < entries.len() && (#[trigger] entries[k]).request == entry.request;
        lemma_entry_is_found(entries, entry.request, k);
    }
    let kept = forgotten(entries, entry.request);
    let all = kept.push(entry);
    let after = with_newest(entries, entry, max_entries);
    let cut = all.len() - after.len();
    let now_at = if at < i {
        i - 1
    } else {
        i
    };
    assert(all[now_at] == entries[i]);
    assert(after[now_at - cut] == entries[i]);
}

proof fn lemma_entry_is_found(entries: Seq<EntryView>, request: RequestView, k: int)
    requires
        0 <= k < entries.len(),
        entries[k].request == request,
    ensures
        entry_of(entries, request) <= k,
    decreases entries.len(),
{
    if entries[0].request != request {
        assert(entries.skip(1)[k - 1] == entries[k]);
        lemma_entry_is_found(entries.skip(1), request, k - 1);
    }
}

} // verus!
