//! The stores of verified resource values: what may enter them, what they give
//! back, and what leaves them when they grow too large or their anchors expire.
use crate::error::ResolverError;
use crate::hash;
use crate::hash::{Hash256, NameHash};
use crate::name;
use crate::proven;
use crate::proven::{
    AnchorView, HnsResourceValueProvider, ResourceValueAnchor, ValueView, VerifiedResourceValue,
};
use crate::text;
use vstd::prelude::*;
use vstd::string::*;

verus! {

/// The normal form of a value that is to be stored: its root is the Handshake
/// root label, and its hash is the hash of that label.
pub open spec fn normalized(value: ValueView) -> Result<ValueView, ResolverError> {
    match name::root_label(value.root_name) {
        Err(error) => Err(error),
        Ok(root) => filed_under(value, root, hash::hash_of_name(root)),
    }
}

/// A value as it is filed under a root whose hash is `expected`.
pub open spec fn filed_under(value: ValueView, root: Seq<char>, expected: Seq<u8>) -> Result<
    ValueView,
    ResolverError,
> {
    if value.name_hash != expected {
        Err(ResolverError::ProofNameMismatch)
    } else {
        Ok(ValueView { root_name: root, ..value })
    }
}

pub fn normalize_verified_root(root_name: &str) -> (r: Result<String, ResolverError>)
    ensures
        match r {
            Ok(root) => name::root_label(root_name@) == Ok::<_, ResolverError>(root@),
            Err(error) => name::root_label(root_name@) == Err::<Seq<char>, _>(error),
        },
{
    name::hns_root_label(root_name)
}

pub fn normalize_verified_resource_value(verified: VerifiedResourceValue) -> (r: Result<
    VerifiedResourceValue,
    ResolverError,
>)
    ensures
        proven::value_reply(r) == normalized(verified@),
{
    let root = match normalize_verified_root(&verified.root_name) {
        Ok(root) => root,
        Err(error) => {
            return Err(error);
        },
    };
    let expected = match NameHash::from_name(&root) {
        Ok(expected) => expected,
        Err(error) => {
            return Err(ResolverError::InvalidName(error));
        },
    };
    file_under(verified, root, expected)
}

/// Files a value under a root, if it is for the hash of that root.
pub fn file_under(verified: VerifiedResourceValue, root: String, expected: NameHash) -> (r: Result<
    VerifiedResourceValue,
    ResolverError,
>)
    ensures
        proven::value_reply(r) == filed_under(verified@, root@, expected@),
{
    if !verified.name_hash.same(&expected) {
        return Err(ResolverError::ProofNameMismatch);
    }
    Ok(
        VerifiedResourceValue {
            root_name: root,
            name_hash: verified.name_hash,
            value: verified.value,
            secure: verified.secure,
            anchor: verified.anchor,
        },
    )
}

/// One stored value and when it was stored.
#[derive(Debug, PartialEq, Eq)]
pub struct ResourceValueRow {
    pub value: VerifiedResourceValue,
    pub updated_at: u64,
}

pub struct RowView {
    pub value: ValueView,
    pub updated_at: u64,
}

impl View for ResourceValueRow {
    type V = RowView;

    open spec fn view(&self) -> RowView {
        RowView { value: self.value@, updated_at: self.updated_at }
    }
}

pub open spec fn row_views(rows: Seq<ResourceValueRow>) -> Seq<RowView> {
    Seq::new(rows.len(), |i: int| rows[i]@)
}

pub open spec fn same_key(a: ValueView, root: Seq<char>, name_hash: Seq<u8>) -> bool {
    a.root_name == root && a.name_hash == name_hash
}

/// The row with a key, counted from the front; the number of rows where there
/// is none.
pub open spec fn row_of(rows: Seq<RowView>, root: Seq<char>, name_hash: Seq<u8>) -> nat
    decreases rows.len(),
{
    if rows.len() == 0 {
        0
    } else if same_key(rows[0].value, root, name_hash) {
        0
    } else {
        1 + row_of(rows.skip(1), root, name_hash)
    }
}

/// No key has two rows.
pub open spec fn keys_are_unique(rows: Seq<RowView>) -> bool {
    forall|i: int, j: int|
        0 <= i < j < rows.len() ==> !same_key(
            (#[trigger] rows[i]).value,
            (#[trigger] rows[j]).value.root_name,
            rows[j].value.name_hash,
        )
}

proof fn lemma_row_of(rows: Seq<RowView>, root: Seq<char>, name_hash: Seq<u8>)
    ensures
        row_of(rows, root, name_hash) <= rows.len(),
        forall|i: int|
            0 <= i < row_of(rows, root, name_hash) ==> !same_key(
                (#[trigger] rows[i]).value,
                root,
                name_hash,
            ),
        row_of(rows, root, name_hash) < rows.len() ==> same_key(
            rows[row_of(rows, root, name_hash) as int].value,
            root,
            name_hash,
        ),
    decreases rows.len(),
{
    if rows.len() > 0 && !same_key(rows[0].value, root, name_hash) {
        let rest = rows.skip(1);
        lemma_row_of(rest, root, name_hash);
        assert forall|i: int| 0 <= i < row_of(rows, root, name_hash) implies !same_key(
            (#[trigger] rows[i]).value,
            root,
            name_hash,
        ) by {
            if i > 0 {
                assert(rows[i] == rest[i - 1]);
            }
        }
    }
}

proof fn lemma_row_of_is(rows: Seq<RowView>, root: Seq<char>, name_hash: Seq<u8>, at: int)
    requires
        0 <= at <= rows.len(),
        forall|i: int| 0 <= i < at ==> !same_key((#[trigger] rows[i]).value, root, name_hash),
        at < rows.len() ==> same_key(rows[at].value, root, name_hash),
    ensures
        row_of(rows, root, name_hash) == at,
    decreases rows.len(),
{
    if rows.len() > 0 && !same_key(rows[0].value, root, name_hash) {
        let rest = rows.skip(1);
        assert forall|i: int| 0 <= i < at - 1 implies !same_key(
            (#[trigger] rest[i]).value,
            root,
            name_hash,
        ) by {
            assert(rest[i] == rows[i + 1]);
        }
        lemma_row_of_is(rest, root, name_hash, at - 1);
    }
}

/// The rows after a row is stored: in place of the one with its key, else at
/// the end.
pub open spec fn upserted(rows: Seq<RowView>, row: RowView) -> Seq<RowView> {
    let at = row_of(rows, row.value.root_name, row.value.name_hash);
    if at < rows.len() {
        rows.update(at as int, row)
    } else {
        rows.push(row)
    }
}

fn find_row(rows: &Vec<ResourceValueRow>, root: &str, name_hash: &NameHash) -> (r: usize)
    ensures
        r == row_of(row_views(rows@), root@, name_hash@),
        r <= rows.len(),
{
    let ghost all = row_views(rows@);
    let mut i: usize = 0;
    while i < rows.len()
        invariant
            i <= rows.len(),
            all == row_views(rows@),
            forall|j: int| 0 <= j < i ==> !same_key((#[trigger] all[j]).value, root@, name_hash@),
        decreases rows.len() - i,
    {
        assert(all[i as int] == rows@[i as int]@);
        if rows[i].value.name_hash.same(name_hash) && text::same_text(
            &rows[i].value.root_name,
            root,
        ) {
            proof {
                lemma_row_of_is(all, root@, name_hash@, i as int);
            }
            return i;
        }
        i = i + 1;
    }
    proof {
        lemma_row_of_is(all, root@, name_hash@, i as int);
    }
    i
}

/// What a store gives for a name: the value under its root label, where the
/// hash belongs to it.
pub open spec fn stored_value(rows: Seq<RowView>, root_name: Seq<char>, name_hash: Seq<u8>) -> Result<
    ValueView,
    ResolverError,
> {
    match name::root_label(root_name) {
        Err(error) => Err(error),
        Ok(root) => looked_up(rows, root, name_hash, hash::hash_of_name(root)),
    }
}

/// What a store gives under a root whose hash is `expected`.
pub open spec fn looked_up(
    rows: Seq<RowView>,
    root: Seq<char>,
    name_hash: Seq<u8>,
    expected: Seq<u8>,
) -> Result<ValueView, ResolverError> {
    if name_hash != expected {
        Err(ResolverError::ProofNameMismatch)
    } else {
        let at = row_of(rows, root, name_hash);
        if at < rows.len() {
            Ok(rows[at as int].value)
        } else {
            Err(ResolverError::ProofUnavailable)
        }
    }
}

/// Looks for the value under a root whose hash is `expected`.
pub fn look_up(
    rows: &Vec<ResourceValueRow>,
    root: &str,
    name_hash: NameHash,
    expected: NameHash,
) -> (r: Result<VerifiedResourceValue, ResolverError>)
    ensures
        proven::value_reply(r) == looked_up(row_views(rows@), root@, name_hash@, expected@),
{
    if !name_hash.same(&expected) {
        return Err(ResolverError::ProofNameMismatch);
    }
    let at: usize = find_row(rows, root, &name_hash);
    if at < rows.len() {
        assert(row_views(rows@)[at as int] == rows@[at as int]@);
        Ok(rows[at].value.copy())
    } else {
        Err(ResolverError::ProofUnavailable)
    }
}

fn read_value(rows: &Vec<ResourceValueRow>, root_name: &str, name_hash: NameHash) -> (r: Result<
    VerifiedResourceValue,
    ResolverError,
>)
    ensures
        proven::value_reply(r) == stored_value(row_views(rows@), root_name@, name_hash@),
{
    let root = match normalize_verified_root(root_name) {
        Ok(root) => root,
        Err(error) => {
            return Err(error);
        },
    };
    let expected = match NameHash::from_name(&root) {
        Ok(expected) => expected,
        Err(error) => {
            return Err(ResolverError::InvalidName(error));
        },
    };
    look_up(rows, &root, name_hash, expected)
}

fn write_value(rows: &mut Vec<ResourceValueRow>, verified: VerifiedResourceValue, now: u64) -> (r:
    Result<(), ResolverError>)
    ensures
        match r {
            Ok(_) => normalized(verified@) is Ok && row_views(final(rows)@) == upserted(
                row_views(old(rows)@),
                RowView { value: normalized(verified@)->Ok_0, updated_at: now },
            ),
            Err(error) => normalized(verified@) == Err::<ValueView, _>(error) && final(rows)@
                == old(rows)@,
        },
{
    match normalize_verified_resource_value(verified) {
        Err(error) => Err(error),
        Ok(value) => {
            let ghost all = row_views(rows@);
            let ghost row = RowView { value: value@, updated_at: now };
            let at: usize = find_row(rows, &value.root_name, &value.name_hash);
            let stored = ResourceValueRow { value, updated_at: now };
            if at < rows.len() {
                rows.set(at, stored);
                assert(row_views(rows@) =~= all.update(at as int, row));
            } else {
                rows.push(stored);
                assert(row_views(rows@) =~= all.push(row));
            }
            Ok(())
        },
    }
}

/// A value that was stored is what the store then gives for its root and hash.
pub proof fn law_read_after_write(rows: Seq<RowView>, value: ValueView, now: u64)
    requires
        normalized(value) is Ok,
    ensures
        stored_value(
            upserted(rows, RowView { value: normalized(value)->Ok_0, updated_at: now }),
            normalized(value)->Ok_0.root_name,
            value.name_hash,
        ) == Ok::<_, ResolverError>(normalized(value)->Ok_0),
{
    let kept = normalized(value)->Ok_0;
    name::law_root_label_is_stable(value.root_name);
    let row = RowView { value: kept, updated_at: now };
    let after = upserted(rows, row);
    lemma_row_of(rows, kept.root_name, kept.name_hash);
    let at = row_of(rows, kept.root_name, kept.name_hash);
    assert forall|i: int| 0 <= i < at implies !same_key(
        (#[trigger] after[i]).value,
        kept.root_name,
        kept.name_hash,
    ) by {
        assert(after[i] == rows[i]);
    }
    lemma_row_of_is(after, kept.root_name, kept.name_hash, at as int);
}

/// Storing a value changes what is given for no other name.
pub proof fn law_write_leaves_others(
    rows: Seq<RowView>,
    row: RowView,
    root: Seq<char>,
    name_hash: Seq<u8>,
)
    requires
        !same_key(row.value, root, name_hash),
    ensures
        stored_value(upserted(rows, row), root, name_hash) is Ok <==> stored_value(
            rows,
            root,
            name_hash,
        ) is Ok || (name::root_label(root) matches Ok(label) && same_key(
            row.value,
            label,
            name_hash,
        ) && name_hash == hash::hash_of_name(label)),
        row_of(rows, root, name_hash) < rows.len() ==> upserted(rows, row)[row_of(
            upserted(rows, row),
            root,
            name_hash,
        ) as int] == rows[row_of(rows, root, name_hash) as int],
{
    let after = upserted(rows, row);
    lemma_upsert_keeps_other(rows, row, root, name_hash);
    match name::root_label(root) {
        Ok(label) => {
            if same_key(row.value, label, name_hash) {
                lemma_row_of(rows, label, name_hash);
                let at = row_of(rows, label, name_hash);
                assert forall|i: int| 0 <= i < at implies !same_key(
                    (#[trigger] after[i]).value,
                    label,
                    name_hash,
                ) by {
                    assert(after[i] == rows[i]);
                }
                lemma_row_of_is(after, label, name_hash, at as int);
            } else {
                lemma_upsert_keeps_other(rows, row, label, name_hash);
            }
        },
        Err(_) => {},
    }
}

proof fn lemma_upsert_keeps_other(
    rows: Seq<RowView>,
    row: RowView,
    root: Seq<char>,
    name_hash: Seq<u8>,
)
    requires
        !same_key(row.value, root, name_hash),
    ensures
        row_of(rows, root, name_hash) < rows.len() <==> row_of(
            upserted(rows, row),
            root,
            name_hash,
        ) < upserted(rows, row).len(),
        row_of(rows, root, name_hash) < rows.len() ==> upserted(rows, row)[row_of(
            upserted(rows, row),
            root,
            name_hash,
        ) as int] == rows[row_of(rows, root, name_hash) as int],
{
    let after = upserted(rows, row);
    let place = row_of(rows, row.value.root_name, row.value.name_hash);
    lemma_row_of(rows, row.value.root_name, row.value.name_hash);
    lemma_row_of(rows, root, name_hash);
    let at = row_of(rows, root, name_hash);
    assert forall|i: int| 0 <= i < at implies !same_key(
        (#[trigger] after[i]).value,
        root,
        name_hash,
    ) by {
        if i == place {
        } else {
            assert(after[i] == rows[i]);
        }
    }
    if at < rows.len() {
        assert(at != place);
        assert(after[at as int] == rows[at as int]);
        lemma_row_of_is(after, root, name_hash, at as int);
    } else {
        assert forall|i: int| 0 <= i < after.len() implies !same_key(
            (#[trigger] after[i]).value,
            root,
            name_hash,
        ) by {
            if i < rows.len() && i != place {
                assert(after[i] == rows[i]);
            }
        }
        lemma_row_of_is(after, root, name_hash, after.len() as int);
    }
}

/// Storing keeps the keys unique.
pub proof fn law_keys_stay_unique(rows: Seq<RowView>, row: RowView)
    requires
        keys_are_unique(rows),
    ensures
        keys_are_unique(upserted(rows, row)),
{
    let after = upserted(rows, row);
    let place = row_of(rows, row.value.root_name, row.value.name_hash);
    lemma_row_of(rows, row.value.root_name, row.value.name_hash);
    assert forall|i: int, j: int| 0 <= i < j < after.len() implies !same_key(
        (#[trigger] after[i]).value,
        (#[trigger] after[j]).value.root_name,
        after[j].value.name_hash,
    ) by {
        if i == place {
            assert(after[j] == rows[j]);
            assert(same_key(rows[i].value, row.value.root_name, row.value.name_hash));
        } else if j == place {
            if place < rows.len() {
                assert(same_key(rows[j].value, row.value.root_name, row.value.name_hash));
                assert(after[i] == rows[i]);
            } else {
                assert(after[i] == rows[i]);
            }
        } else {
            assert(after[i] == rows[i] && after[j] == rows[j]);
        }
    }
}

/// Verified resource values held in memory.
#[derive(Debug, PartialEq, Eq)]
pub struct MemoryResourceValueProvider {
    pub rows: Vec<ResourceValueRow>,
}

impl MemoryResourceValueProvider {
    pub fn new() -> (r: Self)
        ensures
            r.rows@.len() == 0,
    {
        MemoryResourceValueProvider { rows: Vec::new() }
    }

    pub fn insert(&mut self, verified: VerifiedResourceValue) -> (r: Result<(), ResolverError>)
        ensures
            match r {
                Ok(_) => normalized(verified@) is Ok && row_views(final(self).rows@) == upserted(
                    row_views(old(self).rows@),
                    RowView { value: normalized(verified@)->Ok_0, updated_at: 0 },
                ),
                Err(error) => normalized(verified@) == Err::<ValueView, _>(error)
                    && final(self).rows@ == old(self).rows@,
            },
    {
        write_value(&mut self.rows, verified, 0)
    }

    pub fn len(&self) -> (r: usize)
        ensures
            r == self.rows@.len(),
    {
        self.rows.len()
    }

    pub fn is_empty(&self) -> (r: bool)
        ensures
            r == (self.rows@.len() == 0),
    {
        self.rows.len() == 0
    }
}

impl HnsResourceValueProvider for MemoryResourceValueProvider {
    open spec fn proves_value(
        pre: Self,
        root_name: Seq<char>,
        name_hash: Seq<u8>,
        reply: Result<ValueView, ResolverError>,
        post: Self,
    ) -> bool {
        post == pre && reply == stored_value(row_views(pre.rows@), root_name, name_hash)
    }

    fn prove_resource_value(&mut self, root_name: &str, name_hash: NameHash) -> (r: Result<
        VerifiedResourceValue,
        ResolverError,
    >) {
        read_value(&self.rows, root_name, name_hash)
    }
}

/// How much a store holds.
#[derive(Clone, Copy, Debug, PartialEq, Eq, Structural)]
pub struct ResourceValueCacheStats {
    pub entries: usize,
    pub value_bytes: usize,
}

/// The bytes of the value in a row; a proof of absence has none.
pub open spec fn row_bytes(row: RowView) -> nat {
    match row.value.value {
        Some(payload) => payload.bytes.len(),
        None => 0,
    }
}

/// The bytes of all values in the rows.
pub open spec fn total_bytes(rows: Seq<RowView>) -> nat
    decreases rows.len(),
{
    if rows.len() == 0 {
        0
    } else {
        total_bytes(rows.drop_last()) + row_bytes(rows.last())
    }
}

/// Whether `a` comes before `b`, character by character.
pub open spec fn text_before(a: Seq<char>, b: Seq<char>) -> bool
    decreases a.len(),
{
    if b.len() == 0 {
        false
    } else if a.len() == 0 {
        true
    } else if a[0] != b[0] {
        a[0] < b[0]
    } else {
        text_before(a.skip(1), b.skip(1))
    }
}

/// Whether `a` comes before `b`, byte by byte.
pub open spec fn bytes_before(a: Seq<u8>, b: Seq<u8>) -> bool
    decreases a.len(),
{
    if b.len() == 0 {
        false
    } else if a.len() == 0 {
        true
    } else if a[0] != b[0] {
        a[0] < b[0]
    } else {
        bytes_before(a.skip(1), b.skip(1))
    }
}

/// Whether row `a` is older than row `b`; rows of one time go by root, then by hash.
pub open spec fn older(a: RowView, b: RowView) -> bool {
    if a.updated_at != b.updated_at {
        a.updated_at < b.updated_at
    } else if a.value.root_name != b.value.root_name {
        text_before(a.value.root_name, b.value.root_name)
    } else {
        bytes_before(a.value.name_hash, b.value.name_hash)
    }
}

/// The oldest of the rows.
pub open spec fn oldest(rows: Seq<RowView>) -> int
    decreases rows.len(),
{
    if rows.len() <= 1 {
        0
    } else {
        let before = oldest(rows.drop_last());
        if older(rows.last(), rows[before]) {
            rows.len() - 1
        } else {
            before
        }
    }
}

/// The rows that stay when the oldest leave until `max_bytes` is kept.
pub open spec fn evicted_to(rows: Seq<RowView>, max_bytes: nat) -> Seq<RowView>
    decreases rows.len(),
{
    if rows.len() == 0 || total_bytes(rows) <= max_bytes {
        rows
    } else {
        proof {
            lemma_oldest_in_range(rows);
        }
        evicted_to(rows.remove(oldest(rows)), max_bytes)
    }
}

pub proof fn lemma_oldest_in_range(rows: Seq<RowView>)
    ensures
        rows.len() > 0 ==> 0 <= oldest(rows) < rows.len(),
    decreases rows.len(),
{
    if rows.len() > 1 {
        lemma_oldest_in_range(rows.drop_last());
    }
}

pub fn chars_before(a: &Vec<char>, b: &Vec<char>) -> (r: bool)
    ensures
        r == text_before(a@, b@),
{
    let mut i: usize = 0;
    assert(a@.skip(0) =~= a@);
    assert(b@.skip(0) =~= b@);
    while i < a.len() && i < b.len()
        invariant
            i <= a.len(),
            i <= b.len(),
            text_before(a@, b@) == text_before(a@.skip(i as int), b@.skip(i as int)),
        decreases a.len() - i,
    {
        if a[i] != b[i] {
            return a[i] < b[i];
        }
        proof {
            assert(a@.skip(i as int).skip(1) =~= a@.skip(i + 1));
            assert(b@.skip(i as int).skip(1) =~= b@.skip(i + 1));
        }
        i = i + 1;
    }
    i < b.len()
}

fn hash_before(a: &Hash256, b: &Hash256) -> (r: bool)
    ensures
        r == bytes_before(a@, b@),
{
    let mut i: usize = 0;
    assert(a@.skip(0) =~= a@);
    assert(b@.skip(0) =~= b@);
    while i < 32
        invariant
            i <= 32,
            bytes_before(a@, b@) == bytes_before(a@.skip(i as int), b@.skip(i as int)),
        decreases 32 - i,
    {
        if a.bytes[i] != b.bytes[i] {
            return a.bytes[i] < b.bytes[i];
        }
        proof {
            assert(a@.skip(i as int).skip(1) =~= a@.skip(i + 1));
            assert(b@.skip(i as int).skip(1) =~= b@.skip(i + 1));
        }
        i = i + 1;
    }
    false
}

fn row_is_older(a: &ResourceValueRow, b: &ResourceValueRow) -> (r: bool)
    ensures
        r == older(a@, b@),
{
    if a.updated_at != b.updated_at {
        a.updated_at < b.updated_at
    } else if !text::same_text(&a.value.root_name, &b.value.root_name) {
        chars_before(
            &text::chars_of(&a.value.root_name),
            &text::chars_of(&b.value.root_name),
        )
    } else {
        hash_before(&a.value.name_hash.hash, &b.value.name_hash.hash)
    }
}

fn oldest_row(rows: &Vec<ResourceValueRow>) -> (r: usize)
    requires
        rows.len() > 0,
    ensures
        r == oldest(row_views(rows@)),
        r < rows.len(),
{
    let ghost all = row_views(rows@);
    let mut best: usize = 0;
    let mut i: usize = 1;
    while i < rows.len()
        invariant
            1 <= i <= rows.len(),
            best < i,
            all == row_views(rows@),
            best == oldest(all.take(i as int)),
        decreases rows.len() - i,
    {
        proof {
            assert(all.take(i + 1).drop_last() =~= all.take(i as int));
            assert(all.take(i + 1).last() == rows@[i as int]@);
            assert(all.take(i + 1)[best as int] == rows@[best as int]@);
        }
        if row_is_older(&rows[i], &rows[best]) {
            best = i;
        }
        i = i + 1;
    }
    assert(all.take(i as int) =~= all);
    best
}

/// Why the size of a store cannot be told.
fn too_many_bytes() -> (r: ResolverError)
    ensures
        r is Storage,
{
    ResolverError::Storage("integer overflow".to_owned())
}

/// Whether a row stays when only proofs against the given anchors count.
pub open spec fn stays_anchored(valid: Seq<AnchorView>, prune_unanchored: bool) -> spec_fn(
    RowView,
) -> bool {
    |row: RowView|
        match row.value.anchor {
            Some(anchor) => valid.contains(anchor),
            None => !prune_unanchored,
        }
}

pub open spec fn anchor_views(anchors: Seq<ResourceValueAnchor>) -> Seq<AnchorView> {
    Seq::new(anchors.len(), |i: int| anchors[i]@)
}

pub fn has_anchor(anchors: &Vec<ResourceValueAnchor>, wanted: &ResourceValueAnchor) -> (r: bool)
    ensures
        r == anchor_views(anchors@).contains(wanted@),
{
    let ghost all = anchor_views(anchors@);
    let mut i: usize = 0;
    while i < anchors.len()
        invariant
            i <= anchors.len(),
            all == anchor_views(anchors@),
            forall|j: int| 0 <= j < i ==> #[trigger] all[j] != wanted@,
        decreases anchors.len() - i,
    {
        if anchors[i].same(wanted) {
            assert(all[i as int] == wanted@);
            return true;
        }
        i = i + 1;
    }
    false
}

/// Whether some row is anchored at a height.
pub open spec fn has_height(rows: Seq<RowView>, height: u32) -> bool {
    exists|i: int|
        0 <= i < rows.len() && ((#[trigger] rows[i]).value.anchor matches Some(anchor)
            && anchor.height == height)
}

/// The rows of the table of verified resource values. Whoever owns the table
/// loads the rows and writes them back.
#[derive(Debug, PartialEq, Eq)]
pub struct SqliteResourceValueProvider {
    pub rows: Vec<ResourceValueRow>,
}

impl View for SqliteResourceValueProvider {
    type V = Seq<RowView>;

    open spec fn view(&self) -> Seq<RowView> {
        row_views(self.rows@)
    }
}

impl SqliteResourceValueProvider {
    pub fn from_rows(rows: Vec<ResourceValueRow>) -> (r: Self)
        ensures
            r@ == row_views(rows@),
    {
        SqliteResourceValueProvider { rows }
    }

    /// Stores a value as of `now`.
    pub fn insert(&mut self, verified: VerifiedResourceValue, now: u64) -> (r: Result<
        (),
        ResolverError,
    >)
        ensures
            match r {
                Ok(_) => normalized(verified@) is Ok && final(self)@ == upserted(
                    old(self)@,
                    RowView { value: normalized(verified@)->Ok_0, updated_at: now },
                ),
                Err(error) => normalized(verified@) == Err::<ValueView, _>(error) && final(self)@
                    == old(self)@,
            },
    {
        write_value(&mut self.rows, verified, now)
    }

    pub fn len(&self) -> (r: usize)
        ensures
            r == self@.len(),
    {
        self.rows.len()
    }

    pub fn is_empty(&self) -> (r: bool)
        ensures
            r == (self@.len() == 0),
    {
        self.rows.len() == 0
    }

    /// How much the store holds; an error where its bytes cannot be counted.
    pub fn stats(&self) -> (r: Result<ResourceValueCacheStats, ResolverError>)
        ensures
            match r {
                Ok(stats) => stats.entries == self@.len() && stats.value_bytes == total_bytes(
                    self@,
                ),
                Err(error) => total_bytes(self@) > usize::MAX && error is Storage,
            },
    {
        let ghost all = self@;
        let mut total: usize = 0;
        let mut i: usize = 0;
        assert(all.take(0) =~= Seq::empty());
        while i < self.rows.len()
            invariant
                i <= self.rows.len(),
                all == row_views(self.rows@),
                all == self@,
                total == total_bytes(all.take(i as int)),
            decreases self.rows.len() - i,
        {
            proof {
                assert(all.take(i + 1).drop_last() =~= all.take(i as int));
                assert(all.take(i + 1).last() == self.rows@[i as int]@);
            }
            let here: usize = match &self.rows[i].value.value {
                Some(payload) => payload.bytes.len(),
                None => 0,
            };
            match total.checked_add(here) {
                Some(sum) => {
                    total = sum;
                },
                None => {
                    proof {
                        lemma_total_grows(all, i + 1);
                    }
                    return Err(too_many_bytes());
                },
            }
            i = i + 1;
        }
        assert(all.take(i as int) =~= all);
        Ok(ResourceValueCacheStats { entries: self.rows.len(), value_bytes: total })
    }

    pub fn total_value_bytes(&self) -> (r: Result<usize, ResolverError>)
        ensures
            match r {
                Ok(bytes) => bytes == total_bytes(self@),
                Err(error) => total_bytes(self@) > usize::MAX && error is Storage,
            },
    {
        match self.stats() {
            Ok(stats) => Ok(stats.value_bytes),
            Err(error) => Err(error),
        }
    }

    /// Removes the oldest rows until at most `max_bytes` are held, and tells how
    /// many went.
    pub fn enforce_value_byte_limit(&mut self, max_bytes: usize) -> (r: Result<
        usize,
        ResolverError,
    >)
        ensures
            match r {
                Ok(removed) => {
                    &&& final(self)@ == evicted_to(old(self)@, max_bytes as nat)
                    &&& removed == old(self)@.len() - final(self)@.len()
                },
                Err(error) => total_bytes(old(self)@) > usize::MAX && error is Storage
                    && final(self)@ == old(self)@,
            },
    {
        let ghost start = self@;
        let count: usize = self.rows.len();
        let mut total: usize = match self.total_value_bytes() {
            Ok(total) => total,
            Err(error) => {
                return Err(error);
            },
        };
        let mut removed: usize = 0;
        while total > max_bytes && self.rows.len() > 0
            invariant
                total == total_bytes(self@),
                removed == start.len() - self@.len(),
                self@.len() <= start.len(),
                start.len() == count,
                evicted_to(start, max_bytes as nat) == evicted_to(self@, max_bytes as nat),
            decreases self.rows.len(),
        {
            let ghost before = self@;
            let at: usize = oldest_row(&self.rows);
            let gone: usize = match &self.rows[at].value.value {
                Some(payload) => payload.bytes.len(),
                None => 0,
            };
            proof {
                assert(before[at as int] == self.rows@[at as int]@);
                lemma_total_removed(before, at as int);
            }
            let _ = self.rows.remove(at);
            assert(self@ =~= before.remove(at as int));
            total = total - gone;
            removed = removed + 1;
        }
        Ok(removed)
    }

    /// The heights at which the stored proofs are anchored, each once, highest
    /// first.
    pub fn anchored_heights(&self) -> (r: Vec<u32>)
        ensures
            forall|i: int, j: int| 0 <= i < j < r@.len() ==> r@[i] > r@[j],
            forall|height: u32| #[trigger] r@.contains(height) <==> has_height(self@, height),
    {
        let ghost all = self@;
        let mut out: Vec<u32> = Vec::new();
        let mut i: usize = 0;
        while i < self.rows.len()
            invariant
                i <= self.rows.len(),
                all == row_views(self.rows@),
                forall|a: int, b: int| 0 <= a < b < out@.len() ==> out@[a] > out@[b],
                forall|height: u32| #[trigger]
                    out@.contains(height) <==> has_height(all.take(i as int), height),
            decreases self.rows.len() - i,
        {
            let ghost before = out@;
            let ghost seen = all.take(i as int);
            let ghost more = all.take(i + 1);
            assert(more[i as int] == self.rows@[i as int]@);
            match &self.rows[i].value.anchor {
                Some(anchor) => {
                    insert_height(&mut out, anchor.height);
                    assert forall|height: u32| #[trigger]
                        out@.contains(height) <==> has_height(more, height) by {
                        lemma_height_step(all, i as int, height);
                    }
                },
                None => {
                    assert forall|height: u32| #[trigger]
                        out@.contains(height) <==> has_height(more, height) by {
                        lemma_height_step(all, i as int, height);
                    }
                },
            }
            i = i + 1;
        }
        assert(all.take(i as int) =~= all);
        out
    }

    /// Removes the rows whose anchor is not among the valid ones, and those
    /// without an anchor where that is asked for. Tells how many went.
    pub fn prune_invalid_anchors(
        &mut self,
        valid_anchors: &Vec<ResourceValueAnchor>,
        prune_unanchored: bool,
    ) -> (r: usize)
        ensures
            final(self)@ == old(self)@.filter(
                stays_anchored(anchor_views(valid_anchors@), prune_unanchored),
            ),
            r == old(self)@.len() - final(self)@.len(),
    {
        let ghost start = self@;
        let ghost pred = stays_anchored(anchor_views(valid_anchors@), prune_unanchored);
        let count: usize = self.rows.len();
        let mut removed: usize = 0;
        let mut i: usize = 0;
        proof {
            reveal(Seq::filter);
            assert(start.take(0) =~= Seq::empty());
            assert(self@ =~= start.take(0).filter(pred) + start.skip(0));
        }
        while i < self.rows.len()
            invariant
                i <= self.rows.len(),
                self.rows.len() + removed == count,
                count == start.len(),
                pred == stays_anchored(anchor_views(valid_anchors@), prune_unanchored),
                i == start.take(i + removed).filter(pred).len(),
                self@ == start.take(i + removed).filter(pred) + start.skip(i + removed),
            decreases self.rows.len() - i,
        {
            let ghost kept = start.take(i + removed).filter(pred);
            let ghost rest = start.skip(i + removed);
            proof {
                reveal(Seq::filter);
                assert(self@[i as int] == rest[0]);
                assert(rest[0] == start[i + removed]);
                assert(self@[i as int] == self.rows@[i as int]@);
                assert(start.take(i + removed + 1).drop_last() =~= start.take(i + removed));
                assert(start.take(i + removed + 1).last() == start[i + removed]);
            }
            let keep = match &self.rows[i].value.anchor {
                Some(anchor) => has_anchor(valid_anchors, anchor),
                None => !prune_unanchored,
            };
            if keep {
                proof {
                    assert(kept + rest =~= kept.push(rest[0]) + start.skip(i + removed + 1));
                }
                i = i + 1;
            } else {
                let ghost before = self@;
                let _ = self.rows.remove(i);
                proof {
                    assert(self@ =~= before.remove(i as int));
                    assert((kept + rest).remove(i as int) =~= kept + start.skip(i + removed + 1));
                }
                removed = removed + 1;
            }
        }
        proof {
            assert(start.take(i + removed) =~= start);
            assert(start.skip(i + removed) =~= Seq::empty());
            assert(self@ =~= start.filter(pred));
        }
        removed
    }

    pub fn clear(&mut self)
        ensures
            final(self)@ == Seq::<RowView>::empty(),
    {
        self.rows = Vec::new();
        assert(self@ =~= Seq::empty());
    }
}

impl HnsResourceValueProvider for SqliteResourceValueProvider {
    open spec fn proves_value(
        pre: Self,
        root_name: Seq<char>,
        name_hash: Seq<u8>,
        reply: Result<ValueView, ResolverError>,
        post: Self,
    ) -> bool {
        post == pre && reply == stored_value(pre@, root_name, name_hash)
    }

    fn prove_resource_value(&mut self, root_name: &str, name_hash: NameHash) -> (r: Result<
        VerifiedResourceValue,
        ResolverError,
    >) {
        read_value(&self.rows, root_name, name_hash)
    }
}

proof fn lemma_total_grows(rows: Seq<RowView>, n: int)
    requires
        0 <= n <= rows.len(),
    ensures
        total_bytes(rows.take(n)) <= total_bytes(rows),
    decreases rows.len() - n,
{
    if n < rows.len() {
        assert(rows.take(n + 1).drop_last() =~= rows.take(n));
        lemma_total_grows(rows, n + 1);
    } else {
        assert(rows.take(n) =~= rows);
    }
}

proof fn lemma_total_removed(rows: Seq<RowView>, at: int)
    requires
        0 <= at < rows.len(),
    ensures
        total_bytes(rows.remove(at)) + row_bytes(rows[at]) == total_bytes(rows),
    decreases rows.len(),
{
    if at == rows.len() - 1 {
        assert(rows.remove(at) =~= rows.drop_last());
    } else {
        lemma_total_removed(rows.drop_last(), at);
        assert(rows.remove(at).drop_last() =~= rows.drop_last().remove(at));
        assert(rows.remove(at).last() == rows.last());
    }
}

proof fn lemma_height_step(rows: Seq<RowView>, i: int, height: u32)
    requires
        0 <= i < rows.len(),
    ensures
        has_height(rows.take(i + 1), height) <==> has_height(rows.take(i), height) || (
        rows[i].value.anchor matches Some(anchor) && anchor.height == height),
{
    let seen = rows.take(i);
    let more = rows.take(i + 1);
    if has_height(seen, height) {
        let k = choose|k: int|
            0 <= k < seen.len() && ((#[trigger] seen[k]).value.anchor matches Some(anchor)
                && anchor.height == height);
        assert(more[k] == seen[k]);
    }
    if has_height(more, height) {
        let k = choose|k: int|
            0 <= k < more.len() && ((#[trigger] more[k]).value.anchor matches Some(anchor)
                && anchor.height == height);
        if k < i {
            assert(seen[k] == more[k]);
        }
    }
    if rows[i].value.anchor matches Some(anchor) && anchor.height == height {
        assert(more[i] == rows[i]);
    }
}

/// Puts a height into a strictly falling list, once.
fn insert_height(heights: &mut Vec<u32>, height: u32)
    requires
        forall|a: int, b: int| 0 <= a < b < old(heights)@.len() ==> old(heights)@[a] > old(
            heights,
        )@[b],
    ensures
        forall|a: int, b: int|
            0 <= a < b < final(heights)@.len() ==> final(heights)@[a] > final(heights)@[b],
        forall|h: u32| #[trigger]
            final(heights)@.contains(h) <==> old(heights)@.contains(h) || h == height,
{
    let ghost start = heights@;
    let mut i: usize = 0;
    while i < heights.len() && heights[i] > height
        invariant
            i <= heights.len(),
            heights@ == start,
            forall|j: int| 0 <= j < i ==> start[j] > height,
        decreases heights.len() - i,
    {
        i = i + 1;
    }
    if i < heights.len() && heights[i] == height {
        assert(start.contains(height));
        return;
    }
    heights.insert(i, height);
    proof {
        assert(heights@ == start.insert(i as int, height));
        assert forall|h: u32| #[trigger]
            heights@.contains(h) <==> start.contains(h) || h == height by {
            if start.contains(h) {
                let k = choose|k: int| 0 <= k < start.len() && start[k] == h;
                if k < i {
                    assert(heights@[k] == h);
                } else {
                    assert(heights@[k + 1] == h);
                }
            }
            if heights@.contains(h) {
                let k = choose|k: int| 0 <= k < heights@.len() && heights@[k] == h;
                if k < i {
                    assert(start[k] == h);
                } else if k > i {
                    assert(start[k - 1] == h);
                }
            }
            assert(heights@[i as int] == height);
        }
    }
}

/// What is kept after the byte limit was enforced is within the limit, and what
/// it holds was in the store before.
pub proof fn law_byte_limit_holds(rows: Seq<RowView>, max_bytes: nat)
    ensures
        total_bytes(evicted_to(rows, max_bytes)) <= max_bytes,
        evicted_to(rows, max_bytes).len() <= rows.len(),
        forall|i: int|
            0 <= i < evicted_to(rows, max_bytes).len() ==> rows.contains(
                #[trigger] evicted_to(rows, max_bytes)[i],
            ),
    decreases rows.len(),
{
    if rows.len() == 0 || total_bytes(rows) <= max_bytes {
    } else {
        lemma_oldest_in_range(rows);
        let at = oldest(rows);
        let fewer = rows.remove(at);
        law_byte_limit_holds(fewer, max_bytes);
        let kept = evicted_to(rows, max_bytes);
        assert forall|i: int| 0 <= i < kept.len() implies rows.contains(#[trigger] kept[i]) by {
            assert(fewer.contains(kept[i]));
            let k = choose|k: int| 0 <= k < fewer.len() && fewer[k] == kept[i];
            if k < at {
                assert(rows[k] == kept[i]);
            } else {
                assert(rows[k + 1] == kept[i]);
            }
        }
    }
}

/// A store within its limit loses nothing.
pub proof fn law_within_limit_nothing_leaves(rows: Seq<RowView>, max_bytes: nat)
    requires
        total_bytes(rows) <= max_bytes,
    ensures
        evicted_to(rows, max_bytes) == rows,
{
}

pub proof fn lemma_text_order(a: Seq<char>, b: Seq<char>, c: Seq<char>)
    ensures
        !text_before(a, a),
        text_before(a, b) && text_before(b, c) ==> text_before(a, c),
        a != b ==> text_before(a, b) || text_before(b, a),
        text_before(a, b) ==> !text_before(b, a),
    decreases a.len(),
{
    if a.len() > 0 {
        lemma_text_order(a.skip(1), a.skip(1), Seq::empty());
    }
    if a.len() > 0 && b.len() > 0 {
        if a[0] == b[0] {
            lemma_text_order(a.skip(1), b.skip(1), if c.len() > 0 { c.skip(1) } else { c });
            if a.skip(1) == b.skip(1) {
                assert(a =~= b) by {
                    assert forall|i: int| 0 <= i < a.len() implies a[i] == b[i] by {
                        if i > 0 {
                            assert(a[i] == a.skip(1)[i - 1]);
                            assert(b[i] == b.skip(1)[i - 1]);
                        }
                    }
                    assert(a.skip(1).len() == b.skip(1).len());
                }
            }
        }
    } else {
        if a.len() == 0 && b.len() == 0 {
            assert(a =~= b);
        }
    }
}

proof fn lemma_bytes_order(a: Seq<u8>, b: Seq<u8>, c: Seq<u8>)
    ensures
        !bytes_before(a, a),
        bytes_before(a, b) && bytes_before(b, c) ==> bytes_before(a, c),
        a != b ==> bytes_before(a, b) || bytes_before(b, a),
        bytes_before(a, b) ==> !bytes_before(b, a),
    decreases a.len(),
{
    if a.len() > 0 {
        lemma_bytes_order(a.skip(1), a.skip(1), Seq::empty());
    }
    if a.len() > 0 && b.len() > 0 {
        if a[0] == b[0] {
            lemma_bytes_order(a.skip(1), b.skip(1), if c.len() > 0 { c.skip(1) } else { c });
            if a.skip(1) == b.skip(1) {
                assert(a =~= b) by {
                    assert forall|i: int| 0 <= i < a.len() implies a[i] == b[i] by {
                        if i > 0 {
                            assert(a[i] == a.skip(1)[i - 1]);
                            assert(b[i] == b.skip(1)[i - 1]);
                        }
                    }
                    assert(a.skip(1).len() == b.skip(1).len());
                }
            }
        }
    } else {
        if a.len() == 0 && b.len() == 0 {
            assert(a =~= b);
        }
    }
}

/// No row is older than the one that leaves first.
pub proof fn law_oldest_leaves_first(rows: Seq<RowView>)
    requires
        rows.len() > 0,
    ensures
        0 <= oldest(rows) < rows.len(),
        forall|i: int| 0 <= i < rows.len() ==> !older(#[trigger] rows[i], rows[oldest(rows)]),
    decreases rows.len(),
{
    lemma_oldest_in_range(rows);
    if rows.len() == 1 {
        lemma_text_order(rows[0].value.root_name, rows[0].value.root_name, Seq::empty());
        lemma_bytes_order(rows[0].value.name_hash, rows[0].value.name_hash, Seq::empty());
    } else {
        let rest = rows.drop_last();
        law_oldest_leaves_first(rest);
        let before = oldest(rest);
        let best = rows[oldest(rows)];
        lemma_text_order(best.value.root_name, best.value.root_name, Seq::empty());
        lemma_bytes_order(best.value.name_hash, best.value.name_hash, Seq::empty());
        assert forall|i: int| 0 <= i < rows.len() implies !older(#[trigger] rows[i], best) by {
            if i < rest.len() {
                assert(rows[i] == rest[i]);
                assert(!older(rest[i], rest[before]));
                assert(rest[before] == rows[before]);
                if older(rows.last(), rows[before]) {
                    let a = rows[i];
                    let b = rows.last();
                    let c = rows[before];
                    lemma_text_order(a.value.root_name, b.value.root_name, c.value.root_name);
                    lemma_bytes_order(a.value.name_hash, b.value.name_hash, c.value.name_hash);
                }
            }
        }
    }
}

/// What stays after pruning is anchored at a valid anchor, or unanchored where
/// that is allowed.
pub proof fn law_pruned_store_is_anchored(
    rows: Seq<RowView>,
    valid: Seq<AnchorView>,
    prune_unanchored: bool,
    k: int,
)
    requires
        0 <= k < rows.filter(stays_anchored(valid, prune_unanchored)).len(),
    ensures
        ({
            let row = rows.filter(stays_anchored(valid, prune_unanchored))[k];
            &&& rows.contains(row)
            &&& match row.value.anchor {
                Some(anchor) => valid.contains(anchor),
                None => !prune_unanchored,
            }
        }),
    decreases rows.len(),
{
    reveal(Seq::filter);
    let pred = stays_anchored(valid, prune_unanchored);
    if rows.len() > 0 {
        let rest = rows.drop_last();
        if k < rest.filter(pred).len() {
            law_pruned_store_is_anchored(rest, valid, prune_unanchored, k);
            let at = choose|j: int| 0 <= j < rest.len() && rest[j] == rest.filter(pred)[k];
            assert(rows[at] == rows.filter(pred)[k]);
        } else {
            assert(rows.filter(pred)[k] == rows.last());
        }
    }
}

/// What the two anchor columns of a row stand for: an anchor where both are
/// there, an error where they hold no hash or no height.
pub open spec fn anchor_columns(tree_root: Option<Seq<u8>>, height: Option<i64>) -> Result<
    Option<AnchorView>,
    (),
> {
    match (tree_root, height) {
        (Some(root), Some(h)) => if root.len() != hash::HASH_BYTES || h < 0 || h > u32::MAX {
            Err(())
        } else {
            Ok(Some(AnchorView { tree_root: root, height: h as u32 }))
        },
        _ => Ok(None),
    }
}

pub fn sqlite_anchor(tree_root: Option<Vec<u8>>, height: Option<i64>) -> (r: Result<
    Option<ResourceValueAnchor>,
    (),
>)
    ensures
        match r {
            Ok(anchor) => anchor_columns(
                match tree_root {
                    Some(root) => Some(root@),
                    None => None,
                },
                height,
            ) == Ok::<_, ()>(proven::anchor_view(anchor)),
            Err(_) => anchor_columns(
                match tree_root {
                    Some(root) => Some(root@),
                    None => None,
                },
                height,
            ) is Err,
        },
{
    match (tree_root, height) {
        (Some(root), Some(h)) => match Hash256::from_slice(&root) {
            None => Err(()),
            Some(tree_root) => {
                if h < 0 || h > 0xffff_ffff {
                    return Err(());
                }
                Ok(Some(ResourceValueAnchor { tree_root, height: h as u32 }))
            },
        },
        _ => Ok(None),
    }
}

/// Whether every row is filed under a root label and its hash.
pub open spec fn rows_are_matched(rows: Seq<RowView>) -> bool {
    forall|i: int|
        0 <= i < rows.len() ==> name::root_label((#[trigger] rows[i]).value.root_name) == Ok::<
            _,
            ResolverError,
        >(rows[i].value.root_name) && rows[i].value.name_hash == hash::hash_of_name(
            rows[i].value.root_name,
        )
}

/// Nothing is stored but under a root label and its hash.
pub proof fn law_rows_stay_matched(rows: Seq<RowView>, value: ValueView, now: u64)
    requires
        rows_are_matched(rows),
        normalized(value) is Ok,
    ensures
        rows_are_matched(
            upserted(rows, RowView { value: normalized(value)->Ok_0, updated_at: now }),
        ),
{
    let kept = normalized(value)->Ok_0;
    name::law_root_label_is_stable(value.root_name);
    let row = RowView { value: kept, updated_at: now };
    let after = upserted(rows, row);
    lemma_row_of(rows, kept.root_name, kept.name_hash);
    assert forall|i: int| 0 <= i < after.len() implies name::root_label(
        (#[trigger] after[i]).value.root_name,
    ) == Ok::<_, ResolverError>(after[i].value.root_name) && after[i].value.name_hash
        == hash::hash_of_name(after[i].value.root_name) by {
        if after[i] != row {
            assert(after[i] == rows[i]);
        }
    }
}

/// A value is given only for its own root label and hash.
pub proof fn law_given_values_match(rows: Seq<RowView>, root_name: Seq<char>, name_hash: Seq<u8>)
    requires
        stored_value(rows, root_name, name_hash) is Ok,
    ensures
        ({
            let value = stored_value(rows, root_name, name_hash)->Ok_0;
            &&& name::root_label(root_name) == Ok::<_, ResolverError>(value.root_name)
            &&& value.name_hash == name_hash
            &&& name_hash == hash::hash_of_name(value.root_name)
        }),
{
    lemma_row_of(rows, name::root_label(root_name)->Ok_0, name_hash);
}

/// An anchor is read back from the columns that hold it; where one of them is
/// empty there is none.
pub proof fn law_anchor_reads_back(anchor: AnchorView)
    requires
        anchor.tree_root.len() == 32,
    ensures
        anchor_columns(Some(anchor.tree_root), Some(anchor.height as i64)) == Ok::<_, ()>(
            Some(anchor),
        ),
        anchor_columns(None, Some(anchor.height as i64)) == Ok::<Option<AnchorView>, ()>(None),
        anchor_columns(Some(anchor.tree_root), None) == Ok::<Option<AnchorView>, ()>(None),
{
}

/// Every value counts with all of its bytes.
pub proof fn law_every_byte_is_counted(rows: Seq<RowView>, row: RowView)
    ensures
        total_bytes(Seq::empty()) == 0,
        row.value.value matches Some(payload) ==> total_bytes(rows.push(row)) == total_bytes(rows)
            + payload.bytes.len(),
        row.value.value is None ==> total_bytes(rows.push(row)) == total_bytes(rows),
{
    assert(rows.push(row).drop_last() =~= rows);
}

/// A row that was written earlier is the older one.
pub proof fn law_earlier_rows_are_older(a: RowView, b: RowView)
    requires
        a.updated_at < b.updated_at,
    ensures
        older(a, b),
        !older(b, a),
{
}

/// Bytes are ordered by the first that differs, and what ends there comes first.
pub proof fn law_bytes_are_ordered(
    common: Seq<u8>,
    x: u8,
    y: u8,
    rest: Seq<u8>,
    other: Seq<u8>,
)
    ensures
        x != y ==> (bytes_before(common + seq![x] + rest, common + seq![y] + other) <==> x < y),
        bytes_before(common, common + seq![x] + rest),
        !bytes_before(common + seq![x] + rest, common),
        !bytes_before(common, common),
    decreases common.len(),
{
    let a = common + seq![x] + rest;
    let b = common + seq![y] + other;
    if common.len() > 0 {
        let tail = common.skip(1);
        law_bytes_are_ordered(tail, x, y, rest, other);
        assert(a.skip(1) =~= tail + seq![x] + rest);
        assert(b.skip(1) =~= tail + seq![y] + other);
        assert(a[0] == common[0] && b[0] == common[0]);
    } else {
        assert(a[0] == x && b[0] == y);
    }
}

} // verus!
