//! DNS records and messages, and what a resolver reads out of them.
use crate::name;
use crate::name::DnsName;
use vstd::prelude::*;

verus! {

pub const DNS_CLASS_IN: u16 = 1;

pub const DNS_OPT_RECORD_TYPE: u16 = 41;

pub const DNSSEC_DO_FLAG: u32 = 0x8000;

pub const DNS_RCODE_NOERROR: u16 = 0;

pub const DNS_RCODE_NXDOMAIN: u16 = 3;

pub const DEFAULT_DNS_UDP_PAYLOAD: u16 = 1232;

pub const DEFAULT_DNS_TCP_MAX_MESSAGE_LEN: usize = 65_535;

/// The port that nameservers listen on.
pub const DNS_PORT: u16 = 53;

/// The query type that asks for every record.
pub const QTYPE_ALL: u16 = 0xffff;

/// A label list, the view of a domain name.
pub type Labels = Seq<Seq<char>>;

#[derive(Clone, Copy, Debug, PartialEq, Eq, Structural)]
pub enum RecordType {
    A,
    Aaaa,
    Ns,
    Ds,
    Txt,
    Soa,
    Srv,
    Rrsig,
    Nsec,
    Dnskey,
    Nsec3,
    Tlsa,
    Svcb,
    Https,
    Cname,
    Unknown(u16),
}

/// The record type with a code of the DNS registry.
pub open spec fn record_type_of(code: u16) -> RecordType {
    match code {
        1 => RecordType::A,
        2 => RecordType::Ns,
        5 => RecordType::Cname,
        6 => RecordType::Soa,
        16 => RecordType::Txt,
        28 => RecordType::Aaaa,
        33 => RecordType::Srv,
        43 => RecordType::Ds,
        46 => RecordType::Rrsig,
        47 => RecordType::Nsec,
        48 => RecordType::Dnskey,
        50 => RecordType::Nsec3,
        52 => RecordType::Tlsa,
        64 => RecordType::Svcb,
        65 => RecordType::Https,
        other => RecordType::Unknown(other),
    }
}

impl RecordType {
    pub fn from_code(code: u16) -> (r: RecordType)
        ensures
            r == record_type_of(code),
    {
        match code {
            1 => RecordType::A,
            2 => RecordType::Ns,
            5 => RecordType::Cname,
            6 => RecordType::Soa,
            16 => RecordType::Txt,
            28 => RecordType::Aaaa,
            33 => RecordType::Srv,
            43 => RecordType::Ds,
            46 => RecordType::Rrsig,
            47 => RecordType::Nsec,
            48 => RecordType::Dnskey,
            50 => RecordType::Nsec3,
            52 => RecordType::Tlsa,
            64 => RecordType::Svcb,
            65 => RecordType::Https,
            other => RecordType::Unknown(other),
        }
    }

    pub open spec fn spec_code(self) -> u16 {
        match self {
            RecordType::A => 1,
            RecordType::Ns => 2,
            RecordType::Cname => 5,
            RecordType::Soa => 6,
            RecordType::Txt => 16,
            RecordType::Aaaa => 28,
            RecordType::Srv => 33,
            RecordType::Ds => 43,
            RecordType::Rrsig => 46,
            RecordType::Nsec => 47,
            RecordType::Dnskey => 48,
            RecordType::Nsec3 => 50,
            RecordType::Tlsa => 52,
            RecordType::Svcb => 64,
            RecordType::Https => 65,
            RecordType::Unknown(code) => code,
        }
    }

    pub fn code(self) -> (r: u16)
        ensures
            r == self.spec_code(),
    {
        match self {
            RecordType::A => 1,
            RecordType::Ns => 2,
            RecordType::Cname => 5,
            RecordType::Soa => 6,
            RecordType::Txt => 16,
            RecordType::Aaaa => 28,
            RecordType::Srv => 33,
            RecordType::Ds => 43,
            RecordType::Rrsig => 46,
            RecordType::Nsec => 47,
            RecordType::Dnskey => 48,
            RecordType::Nsec3 => 50,
            RecordType::Tlsa => 52,
            RecordType::Svcb => 64,
            RecordType::Https => 65,
            RecordType::Unknown(code) => code,
        }
    }
}

/// Every code comes back from the record type that it names.
pub proof fn law_record_type_code(code: u16)
    ensures
        record_type_of(code).spec_code() == code,
{
}

/// A resource record. `target` is the domain name that fills `rdata` exactly,
/// where it holds one.
#[derive(Clone, Debug, PartialEq, Eq)]
pub struct ResourceRecord {
    pub name: DnsName,
    pub record_type: RecordType,
    pub class: u16,
    pub ttl: u32,
    pub rdata: Vec<u8>,
    pub target: Option<DnsName>,
}

pub struct RecordView {
    pub name: Labels,
    pub record_type: RecordType,
    pub class: u16,
    pub ttl: u32,
    pub rdata: Seq<u8>,
    pub target: Option<Labels>,
}

impl View for ResourceRecord {
    type V = RecordView;

    open spec fn view(&self) -> RecordView {
        RecordView {
            name: self.name@,
            record_type: self.record_type,
            class: self.class,
            ttl: self.ttl,
            rdata: self.rdata@,
            target: match self.target {
                Some(target) => Some(target@),
                None => None,
            },
        }
    }
}

pub open spec fn record_views(records: Seq<ResourceRecord>) -> Seq<RecordView> {
    Seq::new(records.len(), |i: int| records[i]@)
}

#[derive(Clone, Debug, PartialEq, Eq)]
pub struct DnsQuestion {
    pub name: DnsName,
    pub record_type: RecordType,
    pub class: u16,
}

pub struct QuestionView {
    pub name: Labels,
    pub record_type: RecordType,
    pub class: u16,
}

impl View for DnsQuestion {
    type V = QuestionView;

    open spec fn view(&self) -> QuestionView {
        QuestionView { name: self.name@, record_type: self.record_type, class: self.class }
    }
}

/// A DNS message: its identifier, its flag word and its four sections.
#[derive(Clone, Debug, PartialEq, Eq)]
pub struct DnsMessage {
    pub id: u16,
    pub flags: u16,
    pub questions: Vec<DnsQuestion>,
    pub answers: Vec<ResourceRecord>,
    pub authorities: Vec<ResourceRecord>,
    pub additionals: Vec<ResourceRecord>,
}

pub struct MessageView {
    pub id: u16,
    pub flags: u16,
    pub questions: Seq<QuestionView>,
    pub answers: Seq<RecordView>,
    pub authorities: Seq<RecordView>,
    pub additionals: Seq<RecordView>,
}

impl View for DnsMessage {
    type V = MessageView;

    open spec fn view(&self) -> MessageView {
        MessageView {
            id: self.id,
            flags: self.flags,
            questions: Seq::new(self.questions@.len(), |i: int| self.questions@[i]@),
            answers: record_views(self.answers@),
            authorities: record_views(self.authorities@),
            additionals: record_views(self.additionals@),
        }
    }
}

/// The response code of a flag word: its lowest four bits.
pub open spec fn rcode_of(flags: u16) -> u16 {
    flags % 16
}

/// The operation code of a flag word: the four bits below the highest.
pub open spec fn opcode_of(flags: u16) -> u16 {
    (flags / 2048) % 16
}

/// Whether the highest bit of the flag word marks a response.
pub open spec fn is_response(flags: u16) -> bool {
    flags >= 0x8000
}

/// Whether the flag word marks a truncated message.
pub open spec fn is_truncated(flags: u16) -> bool {
    (flags / 512) % 2 == 1
}

/// Whether the flag word marks authenticated data.
pub open spec fn is_authentic(flags: u16) -> bool {
    (flags / 32) % 2 == 1
}

/// A server's address: four or sixteen octets, and a port.
#[derive(Clone, Debug, PartialEq, Eq)]
pub struct ServerAddress {
    pub ip: Vec<u8>,
    pub port: u16,
}

pub struct AddressView {
    pub ip: Seq<u8>,
    pub port: u16,
}

impl View for ServerAddress {
    type V = AddressView;

    open spec fn view(&self) -> AddressView {
        AddressView { ip: self.ip@, port: self.port }
    }
}

pub open spec fn address_views(addresses: Seq<ServerAddress>) -> Seq<AddressView> {
    Seq::new(addresses.len(), |i: int| addresses[i]@)
}

/// The copy of a byte vector.
pub fn copy_bytes(bytes: &Vec<u8>) -> (r: Vec<u8>)
    ensures
        r@ == bytes@,
{
    let mut out: Vec<u8> = Vec::new();
    let mut i: usize = 0;
    while i < bytes.len()
        invariant
            i <= bytes.len(),
            out@ == bytes@.take(i as int),
        decreases bytes.len() - i,
    {
        out.push(bytes[i]);
        i = i + 1;
    }
    assert(bytes@.take(i as int) =~= bytes@);
    out
}

/// Whether two byte vectors hold the same bytes.
pub fn same_bytes(a: &Vec<u8>, b: &Vec<u8>) -> (r: bool)
    ensures
        r == (a@ == b@),
{
    if a.len() != b.len() {
        return false;
    }
    let mut i: usize = 0;
    while i < a.len()
        invariant
            i <= a.len(),
            a.len() == b.len(),
            forall|j: int| 0 <= j < i ==> a@[j] == b@[j],
        decreases a.len() - i,
    {
        if a[i] != b[i] {
            assert(a@[i as int] != b@[i as int]);
            return false;
        }
        i = i + 1;
    }
    assert(a@ =~= b@);
    true
}

impl ServerAddress {
    pub fn copy(&self) -> (r: ServerAddress)
        ensures
            r@ == self@,
    {
        ServerAddress { ip: copy_bytes(&self.ip), port: self.port }
    }
}

impl ResourceRecord {
    pub fn copy(&self) -> (r: ResourceRecord)
        ensures
            r@ == self@,
    {
        ResourceRecord {
            name: self.name.copy(),
            record_type: self.record_type,
            class: self.class,
            ttl: self.ttl,
            rdata: copy_bytes(&self.rdata),
            target: match &self.target {
                Some(target) => Some(target.copy()),
                None => None,
            },
        }
    }
}

/// Whether a record has the given owner and type.
pub open spec fn owned_as(owner: Labels, record_type: RecordType) -> spec_fn(RecordView) -> bool {
    |r: RecordView| r.name == owner && r.record_type == record_type
}

/// Whether a record has the given type.
pub open spec fn typed_as(record_type: RecordType) -> spec_fn(RecordView) -> bool {
    |r: RecordView| r.record_type == record_type
}

/// The records of one owner and type, in order.
pub open spec fn rrset(records: Seq<RecordView>, owner: Labels, record_type: RecordType) -> Seq<
    RecordView,
> {
    records.filter(owned_as(owner, record_type))
}

/// The records of one type, in order.
pub open spec fn of_type(records: Seq<RecordView>, record_type: RecordType) -> Seq<RecordView> {
    records.filter(typed_as(record_type))
}

pub proof fn lemma_filter_step(records: Seq<RecordView>, i: int, pred: spec_fn(RecordView) -> bool)
    requires
        0 <= i < records.len(),
    ensures
        records.take(i + 1).filter(pred) == if pred(records[i]) {
            records.take(i).filter(pred).push(records[i])
        } else {
            records.take(i).filter(pred)
        },
{
    reveal(Seq::filter);
    assert(records.take(i + 1).drop_last() =~= records.take(i));
}

pub proof fn lemma_filter_none(records: Seq<RecordView>, pred: spec_fn(RecordView) -> bool)
    ensures
        records.take(0).filter(pred) == Seq::<RecordView>::empty(),
        records.take(records.len() as int) == records,
{
    reveal(Seq::filter);
    assert(records.take(0) =~= Seq::empty());
    assert(records.take(records.len() as int) =~= records);
}

/// A kept record is one of the records, and passes.
pub proof fn lemma_filter_member(
    records: Seq<RecordView>,
    pred: spec_fn(RecordView) -> bool,
    k: int,
)
    requires
        0 <= k < records.filter(pred).len(),
    ensures
        pred(records.filter(pred)[k]),
        records.contains(records.filter(pred)[k]),
    decreases records.len(),
{
    reveal(Seq::filter);
    if records.len() > 0 {
        let rest = records.drop_last();
        if k < rest.filter(pred).len() {
            lemma_filter_member(rest, pred, k);
            let at = choose|j: int| 0 <= j < rest.len() && rest[j] == rest.filter(pred)[k];
            assert(records[at] == records.filter(pred)[k]);
        } else {
            assert(records.filter(pred)[k] == records.last());
        }
    }
}

/// Nothing is kept exactly where nothing passes.
pub proof fn lemma_filter_empty(records: Seq<RecordView>, pred: spec_fn(RecordView) -> bool)
    ensures
        records.filter(pred).len() == 0 <==> forall|i: int|
            0 <= i < records.len() ==> !pred(#[trigger] records[i]),
    decreases records.len(),
{
    reveal(Seq::filter);
    if records.len() > 0 {
        let rest = records.drop_last();
        lemma_filter_empty(rest, pred);
        assert(forall|i: int| 0 <= i < rest.len() ==> rest[i] == records[i]);
        if records.filter(pred).len() == 0 {
            assert(!pred(records.last()));
            assert forall|i: int| 0 <= i < records.len() implies !pred(#[trigger] records[i]) by {
                if i < rest.len() {
                    assert(!pred(rest[i]));
                }
            }
        } else if forall|i: int| 0 <= i < records.len() ==> !pred(#[trigger] records[i]) {
            assert(!pred(records[records.len() - 1]));
        }
    }
}

pub fn records_for(records: &Vec<ResourceRecord>, owner: &DnsName, record_type: RecordType) -> (r:
    Vec<ResourceRecord>)
    ensures
        record_views(r@) == rrset(record_views(records@), owner@, record_type),
{
    let mut out: Vec<ResourceRecord> = Vec::new();
    let ghost all = record_views(records@);
    let ghost pred = owned_as(owner@, record_type);
    let mut i: usize = 0;
    proof {
        lemma_filter_none(all, pred);
        assert(record_views(out@) =~= Seq::empty());
    }
    while i < records.len()
        invariant
            i <= records.len(),
            all == record_views(records@),
            pred == owned_as(owner@, record_type),
            record_views(out@) == all.take(i as int).filter(pred),
        decreases records.len() - i,
    {
        let ghost before = out@;
        proof {
            lemma_filter_step(all, i as int, pred);
            assert(all[i as int] == records@[i as int]@);
        }
        if records[i].record_type == record_type && records[i].name.same(owner) {
            out.push(records[i].copy());
            assert(record_views(out@) =~= record_views(before).push(all[i as int]));
        }
        i = i + 1;
    }
    proof {
        lemma_filter_none(all, pred);
    }
    out
}

pub fn records_of_type(records: &Vec<ResourceRecord>, record_type: RecordType) -> (r: Vec<
    ResourceRecord,
>)
    ensures
        record_views(r@) == of_type(record_views(records@), record_type),
{
    let mut out: Vec<ResourceRecord> = Vec::new();
    let ghost all = record_views(records@);
    let ghost pred = typed_as(record_type);
    let mut i: usize = 0;
    proof {
        lemma_filter_none(all, pred);
        assert(record_views(out@) =~= Seq::empty());
    }
    while i < records.len()
        invariant
            i <= records.len(),
            all == record_views(records@),
            pred == typed_as(record_type),
            record_views(out@) == all.take(i as int).filter(pred),
        decreases records.len() - i,
    {
        let ghost before = out@;
        proof {
            lemma_filter_step(all, i as int, pred);
            assert(all[i as int] == records@[i as int]@);
        }
        if records[i].record_type == record_type {
            out.push(records[i].copy());
            assert(record_views(out@) =~= record_views(before).push(all[i as int]));
        }
        i = i + 1;
    }
    proof {
        lemma_filter_none(all, pred);
    }
    out
}

pub fn copy_records(records: &Vec<ResourceRecord>) -> (r: Vec<ResourceRecord>)
    ensures
        record_views(r@) == record_views(records@),
{
    let mut out: Vec<ResourceRecord> = Vec::new();
    append_records(&mut out, records);
    assert(record_views(out@) =~= record_views(records@));
    out
}

/// Appends copies of `more` to `out`.
pub fn append_records(out: &mut Vec<ResourceRecord>, more: &Vec<ResourceRecord>)
    ensures
        record_views(final(out)@) == record_views(old(out)@) + record_views(more@),
{
    let ghost start = out@;
    let mut i: usize = 0;
    while i < more.len()
        invariant
            i <= more.len(),
            out@.len() == start.len() + i,
            forall|j: int| 0 <= j < start.len() ==> out@[j] == start[j],
            forall|j: int| 0 <= j < i ==> out@[start.len() + j]@ == more@[j]@,
        decreases more.len() - i,
    {
        out.push(more[i].copy());
        i = i + 1;
    }
    assert(record_views(out@) =~= record_views(start) + record_views(more@));
}

/// The records of the answer section, then those of the authority section.
pub open spec fn proof_records(message: MessageView) -> Seq<RecordView> {
    message.answers + message.authorities
}

pub fn combined_response_records(response: &DnsMessage) -> (r: Vec<ResourceRecord>)
    ensures
        record_views(r@) == proof_records(response@),
{
    let mut out = copy_records(&response.answers);
    append_records(&mut out, &response.authorities);
    out
}

/// Whether some record has the given owner and type.
pub open spec fn has_record(records: Seq<RecordView>, owner: Labels, record_type: RecordType) -> bool {
    exists|i: int|
        0 <= i < records.len() && (#[trigger] records[i]).name == owner && records[i].record_type
            == record_type
}

pub fn has_owner_record(
    records: &Vec<ResourceRecord>,
    owner: &DnsName,
    record_type: RecordType,
) -> (r: bool)
    ensures
        r == has_record(record_views(records@), owner@, record_type),
{
    let ghost all = record_views(records@);
    let mut i: usize = 0;
    while i < records.len()
        invariant
            i <= records.len(),
            all == record_views(records@),
            forall|j: int|
                0 <= j < i ==> !((#[trigger] all[j]).name == owner@ && all[j].record_type
                    == record_type),
        decreases records.len() - i,
    {
        assert(all[i as int] == records@[i as int]@);
        if records[i].record_type == record_type && records[i].name.same(owner) {
            return true;
        }
        i = i + 1;
    }
    false
}

/// The records that answer a query over proven records: all of them for the
/// query for every record, else those of the queried name and type.
pub open spec fn selected_records(records: Seq<RecordView>, request_name: Labels, qtype: u16) -> Seq<
    RecordView,
> {
    if qtype == QTYPE_ALL {
        records
    } else {
        rrset(records, request_name, record_type_of(qtype))
    }
}

pub fn filter_records(records: &Vec<ResourceRecord>, request_name: &DnsName, qtype: u16) -> (r: Vec<
    ResourceRecord,
>)
    ensures
        record_views(r@) == selected_records(record_views(records@), request_name@, qtype),
{
    if qtype == QTYPE_ALL {
        return copy_records(records);
    }
    records_for(records, request_name, RecordType::from_code(qtype))
}

/// Whether the proven records of the root are the answer by themselves.
pub open spec fn root_answers(request_name: Labels, root_owner: Labels, qtype: u16) -> bool {
    request_name == root_owner && (qtype == QTYPE_ALL || record_type_of(qtype) == RecordType::Ds
        || record_type_of(qtype) == RecordType::Ns || record_type_of(qtype) == RecordType::Txt)
}

pub fn root_records_answer_request(request_name: &DnsName, root_owner: &DnsName, qtype: u16) -> (r:
    bool)
    ensures
        r == root_answers(request_name@, root_owner@, qtype),
{
    if !request_name.same(root_owner) {
        return false;
    }
    if qtype == QTYPE_ALL {
        return true;
    }
    match RecordType::from_code(qtype) {
        RecordType::Ds | RecordType::Ns | RecordType::Txt => true,
        _ => false,
    }
}

/// What is kept of records are those of them that pass, and no others.
pub proof fn lemma_filter_members(
    records: Seq<RecordView>,
    pred: spec_fn(RecordView) -> bool,
    record: RecordView,
)
    ensures
        records.filter(pred).contains(record) <==> records.contains(record) && pred(record),
{
    let kept = records.filter(pred);
    if records.contains(record) && pred(record) {
        let i = choose|i: int| 0 <= i < records.len() && records[i] == record;
        records.lemma_filter_contains(pred, i);
    }
    if kept.contains(record) {
        let k = choose|k: int| 0 <= k < kept.len() && kept[k] == record;
        lemma_filter_member(records, pred, k);
    }
}

/// A record set holds every record of its owner and type that there is, and
/// nothing else.
pub proof fn law_rrset_is_complete(
    records: Seq<RecordView>,
    owner: Labels,
    record_type: RecordType,
    record: RecordView,
)
    ensures
        rrset(records, owner, record_type).contains(record) <==> {
            &&& records.contains(record)
            &&& record.name == owner
            &&& record.record_type == record_type
        },
{
    lemma_filter_members(records, owned_as(owner, record_type), record);
}

/// The records of one type hold every record of that type that there is, and
/// nothing else.
pub proof fn law_records_of_a_type_are_complete(
    records: Seq<RecordView>,
    record_type: RecordType,
    record: RecordView,
)
    ensures
        of_type(records, record_type).contains(record) <==> records.contains(record)
            && record.record_type == record_type,
{
    lemma_filter_members(records, typed_as(record_type), record);
}

/// Record sets come in the order of the records: those of the front, then those
/// of the back, and a record by itself once where it belongs to the set.
pub proof fn law_rrset_keeps_the_order(
    front: Seq<RecordView>,
    back: Seq<RecordView>,
    record: RecordView,
    owner: Labels,
    record_type: RecordType,
)
    ensures
        rrset(front + back, owner, record_type) == rrset(front, owner, record_type) + rrset(
            back,
            owner,
            record_type,
        ),
        record.name == owner && record.record_type == record_type ==> rrset(
            seq![record],
            owner,
            record_type,
        ) == seq![record],
        of_type(front + back, record_type) == of_type(front, record_type) + of_type(
            back,
            record_type,
        ),
        record.record_type == record_type ==> of_type(seq![record], record_type) == seq![record],
{
    Seq::filter_distributes_over_add(front, back, owned_as(owner, record_type));
    Seq::filter_distributes_over_add(front, back, typed_as(record_type));
    reveal_with_fuel(Seq::filter, 2);
    assert(seq![record].drop_last() =~= Seq::empty());
    assert(Seq::<RecordView>::empty().push(record) =~= seq![record]);
}

/// The numbers under which the record types are registered: a type has that one
/// number, and the number names that one type.
pub proof fn law_record_types_have_their_numbers(code: u16, record_type: RecordType)
    requires
        ({
            ||| record_type == RecordType::A && code == 1
            ||| record_type == RecordType::Ns && code == 2
            ||| record_type == RecordType::Cname && code == 5
            ||| record_type == RecordType::Soa && code == 6
            ||| record_type == RecordType::Txt && code == 16
            ||| record_type == RecordType::Aaaa && code == 28
            ||| record_type == RecordType::Srv && code == 33
            ||| record_type == RecordType::Ds && code == 43
            ||| record_type == RecordType::Rrsig && code == 46
            ||| record_type == RecordType::Nsec && code == 47
            ||| record_type == RecordType::Dnskey && code == 48
            ||| record_type == RecordType::Nsec3 && code == 50
            ||| record_type == RecordType::Tlsa && code == 52
            ||| record_type == RecordType::Svcb && code == 64
            ||| record_type == RecordType::Https && code == 65
        }),
    ensures
        record_type_of(code) == record_type,
        record_type.spec_code() == code,
{
}

/// A request for every type is answered with all the records; one for a single
/// type with exactly those records that have the name and the type asked for.
pub proof fn law_selected_records_are_those_asked_for(
    records: Seq<RecordView>,
    request_name: Labels,
    qtype: u16,
    record: RecordView,
)
    ensures
        selected_records(records, request_name, qtype).contains(record) <==> records.contains(record)
            && (qtype == 65_535 || (record.name == request_name && record.record_type
            == record_type_of(qtype))),
{
    law_rrset_is_complete(records, request_name, record_type_of(qtype), record);
}

/// A name has a record of a type exactly where its set of that type is not empty.
pub proof fn law_present_records_are_found(
    records: Seq<RecordView>,
    owner: Labels,
    record_type: RecordType,
)
    ensures
        has_record(records, owner, record_type) <==> rrset(records, owner, record_type).len() > 0,
{
    let set = rrset(records, owner, record_type);
    if has_record(records, owner, record_type) {
        let i = choose|i: int|
            0 <= i < records.len() && (#[trigger] records[i]).name == owner
                && records[i].record_type == record_type;
        law_rrset_is_complete(records, owner, record_type, records[i]);
        assert(records.contains(records[i]));
    }
    if set.len() > 0 {
        law_rrset_is_complete(records, owner, record_type, set[0]);
        assert(set.contains(set[0]));
        let i = choose|i: int| 0 <= i < records.len() && records[i] == set[0];
        assert(records[i].name == owner);
    }
}

/// A proven name answers itself for its nameserver, text and signer records, or
/// for all types at once; for its addresses a nameserver has to be asked.
pub proof fn law_what_a_proven_name_answers_itself(
    request_name: Labels,
    root_owner: Labels,
    qtype: u16,
)
    ensures
        root_answers(request_name, root_owner, qtype) <==> request_name == root_owner && (qtype == 2
            || qtype == 16 || qtype == 43 || qtype == 65_535),
{
    law_record_type_code(qtype);
}

/// The flag word of a message: its highest bit marks a response, the four below it
/// the operation, the bit of value 512 that it was cut short, and the lowest four
/// the result.
pub proof fn law_flag_word(flags: u16)
    ensures
        is_response(flags) <==> flags & 0x8000 != 0,
        opcode_of(flags) == (flags & 0x7800) >> 11,
        is_truncated(flags) <==> flags & 0x0200 != 0,
        rcode_of(flags) == flags & 0x000f,
{
    assert(flags >= 0x8000 <==> flags & 0x8000 != 0) by (bit_vector);
    assert((flags / 2048) % 16 == (flags & 0x7800) >> 11) by (bit_vector);
    assert((flags / 512) % 2 == 1 <==> flags & 0x0200 != 0) by (bit_vector);
    assert(flags % 16 == flags & 0x000f) by (bit_vector);
}

} // verus!
