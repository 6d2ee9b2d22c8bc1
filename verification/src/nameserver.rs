//! Which servers a delegation names, and the questions that go to them.
use crate::dns;
use crate::dns::{
    AddressView, DnsMessage, DnsQuestion, Labels, MessageView, QuestionView, RecordType,
    RecordView, ResourceRecord, ServerAddress, DEFAULT_DNS_UDP_PAYLOAD, DNSSEC_DO_FLAG,
    DNS_CLASS_IN, DNS_OPT_RECORD_TYPE, DNS_PORT, DNS_RCODE_NOERROR, DNS_RCODE_NXDOMAIN,
};
use crate::error::ResolverError;
use crate::name;
use crate::name::DnsName;
use vstd::prelude::*;

verus! {

/// The names that the records hold as targets, each once, in order of first mention.
pub open spec fn distinct_targets(records: Seq<RecordView>) -> Seq<Labels>
    decreases records.len(),
{
    if records.len() == 0 {
        Seq::empty()
    } else {
        let before = distinct_targets(records.drop_last());
        match records.last().target {
            Some(target) => if before.contains(target) {
                before
            } else {
                before.push(target)
            },
            None => before,
        }
    }
}

pub open spec fn name_views(names: Seq<DnsName>) -> Seq<Labels> {
    Seq::new(names.len(), |i: int| names[i]@)
}

fn has_name(names: &Vec<DnsName>, wanted: &DnsName) -> (r: bool)
    ensures
        r == name_views(names@).contains(wanted@),
{
    let ghost all = name_views(names@);
    let mut i: usize = 0;
    while i < names.len()
        invariant
            i <= names.len(),
            all == name_views(names@),
            forall|j: int| 0 <= j < i ==> #[trigger] all[j] != wanted@,
        decreases names.len() - i,
    {
        if names[i].same(wanted) {
            assert(all[i as int] == wanted@);
            return true;
        }
        i = i + 1;
    }
    false
}

pub fn target_names(records: &Vec<ResourceRecord>) -> (r: Vec<DnsName>)
    ensures
        name_views(r@) == distinct_targets(dns::record_views(records@)),
{
    let ghost all = dns::record_views(records@);
    let mut names: Vec<DnsName> = Vec::new();
    let mut i: usize = 0;
    assert(all.take(0) =~= Seq::empty());
    assert(name_views(names@) =~= Seq::empty());
    while i < records.len()
        invariant
            i <= records.len(),
            all == dns::record_views(records@),
            name_views(names@) == distinct_targets(all.take(i as int)),
        decreases records.len() - i,
    {
        let ghost before = names@;
        proof {
            assert(all.take(i + 1).drop_last() =~= all.take(i as int));
            assert(all.take(i + 1).last() == records@[i as int]@);
        }
        match &records[i].target {
            Some(target) => {
                if !has_name(&names, target) {
                    names.push(target.copy());
                    assert(name_views(names@) =~= name_views(before).push(target@));
                }
            },
            None => {},
        }
        i = i + 1;
    }
    assert(all.take(i as int) =~= all);
    names
}

/// The octets of an address record of the right length.
pub open spec fn record_octets(record: RecordView) -> Option<Seq<u8>> {
    if (record.record_type == RecordType::A && record.rdata.len() == 4) || (record.record_type
        == RecordType::Aaaa && record.rdata.len() == 16) {
        Some(record.rdata)
    } else {
        None
    }
}

/// `found`, then the addresses that the records give `owner`, none of them twice.
pub open spec fn with_addresses_of(
    found: Seq<AddressView>,
    owner: Labels,
    records: Seq<RecordView>,
) -> Seq<AddressView>
    decreases records.len(),
{
    if records.len() == 0 {
        found
    } else {
        let before = with_addresses_of(found, owner, records.drop_last());
        let record = records.last();
        match record_octets(record) {
            Some(octets) => {
                let address = AddressView { ip: octets, port: DNS_PORT };
                if record.name == owner && !before.contains(address) {
                    before.push(address)
                } else {
                    before
                }
            },
            None => before,
        }
    }
}

/// The addresses that the records give the names, in the order of the names.
pub open spec fn addresses_of(names: Seq<Labels>, records: Seq<RecordView>) -> Seq<AddressView>
    decreases names.len(),
{
    if names.len() == 0 {
        Seq::empty()
    } else {
        with_addresses_of(addresses_of(names.drop_last(), records), names.last(), records)
    }
}

fn has_address(addresses: &Vec<ServerAddress>, ip: &Vec<u8>) -> (r: bool)
    ensures
        r == dns::address_views(addresses@).contains((AddressView { ip: ip@, port: DNS_PORT })),
{
    let ghost all = dns::address_views(addresses@);
    let ghost wanted = AddressView { ip: ip@, port: DNS_PORT };
    let mut i: usize = 0;
    while i < addresses.len()
        invariant
            i <= addresses.len(),
            all == dns::address_views(addresses@),
            wanted == (AddressView { ip: ip@, port: DNS_PORT }),
            forall|j: int| 0 <= j < i ==> #[trigger] all[j] != wanted,
        decreases addresses.len() - i,
    {
        assert(all[i as int] == addresses@[i as int]@);
        if addresses[i].port == DNS_PORT && dns::same_bytes(&addresses[i].ip, ip) {
            return true;
        }
        i = i + 1;
    }
    false
}

fn add_addresses(
    found: &mut Vec<ServerAddress>,
    owner: &DnsName,
    records: &Vec<ResourceRecord>,
)
    ensures
        dns::address_views(final(found)@) == with_addresses_of(
            dns::address_views(old(found)@),
            owner@,
            dns::record_views(records@),
        ),
{
    let ghost start = dns::address_views(found@);
    let ghost all = dns::record_views(records@);
    let mut i: usize = 0;
    assert(all.take(0) =~= Seq::empty());
    while i < records.len()
        invariant
            i <= records.len(),
            all == dns::record_views(records@),
            dns::address_views(found@) == with_addresses_of(start, owner@, all.take(i as int)),
        decreases records.len() - i,
    {
        let ghost before = found@;
        proof {
            assert(all.take(i + 1).drop_last() =~= all.take(i as int));
            assert(all.take(i + 1).last() == records@[i as int]@);
        }
        let record = &records[i];
        let usable = match record.record_type {
            RecordType::A => record.rdata.len() == 4,
            RecordType::Aaaa => record.rdata.len() == 16,
            _ => false,
        };
        if usable && record.name.same(owner) && !has_address(found, &record.rdata) {
            found.push(ServerAddress { ip: dns::copy_bytes(&record.rdata), port: DNS_PORT });
            proof {
                let address = AddressView { ip: record.rdata@, port: DNS_PORT };
                assert(dns::address_views(found@) =~= dns::address_views(before).push(address));
            }
        }
        i = i + 1;
    }
    assert(all.take(i as int) =~= all);
}

fn collect_addresses(names: &Vec<DnsName>, records: &Vec<ResourceRecord>) -> (r: Vec<ServerAddress>)
    ensures
        dns::address_views(r@) == addresses_of(name_views(names@), dns::record_views(records@)),
{
    let ghost all = name_views(names@);
    let mut found: Vec<ServerAddress> = Vec::new();
    let mut i: usize = 0;
    assert(all.take(0) =~= Seq::empty());
    assert(dns::address_views(found@) =~= Seq::empty());
    while i < names.len()
        invariant
            i <= names.len(),
            all == name_views(names@),
            dns::address_views(found@) == addresses_of(
                all.take(i as int),
                dns::record_views(records@),
            ),
        decreases names.len() - i,
    {
        proof {
            assert(all.take(i + 1).drop_last() =~= all.take(i as int));
            assert(all.take(i + 1).last() == names@[i as int]@);
        }
        add_addresses(&mut found, &names[i], records);
        i = i + 1;
    }
    assert(all.take(i as int) =~= all);
    found
}

/// A Handshake delegation: the root, and the records that hold for it.
#[derive(Clone, Debug, PartialEq, Eq)]
pub struct HnsDelegation {
    pub root_name: String,
    pub owner: DnsName,
    pub records: Vec<ResourceRecord>,
}

pub struct DelegationView {
    pub root_name: Seq<char>,
    pub owner: Labels,
    pub records: Seq<RecordView>,
}

impl View for HnsDelegation {
    type V = DelegationView;

    open spec fn view(&self) -> DelegationView {
        DelegationView {
            root_name: self.root_name@,
            owner: self.owner@,
            records: dns::record_views(self.records@),
        }
    }
}

/// The names of a delegation's nameservers.
pub open spec fn ns_names(records: Seq<RecordView>, owner: Labels) -> Seq<Labels> {
    distinct_targets(dns::rrset(records, owner, RecordType::Ns))
}

/// The addresses of a delegation's nameservers, as its own records give them.
pub open spec fn delegation_servers(delegation: DelegationView) -> Seq<AddressView> {
    addresses_of(ns_names(delegation.records, delegation.owner), delegation.records)
}

pub fn nameserver_addresses(delegation: &HnsDelegation) -> (r: Vec<ServerAddress>)
    ensures
        dns::address_views(r@) == delegation_servers(delegation@),
{
    let ns_rrset = dns::records_for(&delegation.records, &delegation.owner, RecordType::Ns);
    let names = target_names(&ns_rrset);
    collect_addresses(&names, &delegation.records)
}

pub fn referral_nameserver_addresses(
    ns_rrset: &Vec<ResourceRecord>,
    additionals: &Vec<ResourceRecord>,
) -> (r: Vec<ServerAddress>)
    ensures
        dns::address_views(r@) == addresses_of(
            distinct_targets(dns::record_views(ns_rrset@)),
            dns::record_views(additionals@),
        ),
{
    let names = target_names(ns_rrset);
    collect_addresses(&names, additionals)
}

/// Every listed address is on the DNS port, and none is listed twice.
pub proof fn law_addresses_are_distinct(names: Seq<Labels>, records: Seq<RecordView>)
    ensures
        addresses_of(names, records).no_duplicates(),
        forall|i: int|
            0 <= i < addresses_of(names, records).len() ==> (#[trigger] addresses_of(
                names,
                records,
            )[i]).port == DNS_PORT,
    decreases names.len(),
{
    if names.len() > 0 {
        law_addresses_are_distinct(names.drop_last(), records);
        lemma_with_addresses_distinct(
            addresses_of(names.drop_last(), records),
            names.last(),
            records,
        );
    }
}

proof fn lemma_with_addresses_distinct(
    found: Seq<AddressView>,
    owner: Labels,
    records: Seq<RecordView>,
)
    requires
        found.no_duplicates(),
        forall|i: int| 0 <= i < found.len() ==> (#[trigger] found[i]).port == DNS_PORT,
    ensures
        with_addresses_of(found, owner, records).no_duplicates(),
        forall|i: int|
            0 <= i < with_addresses_of(found, owner, records).len() ==> (
            #[trigger] with_addresses_of(found, owner, records)[i]).port == DNS_PORT,
    decreases records.len(),
{
    if records.len() > 0 {
        lemma_with_addresses_distinct(found, owner, records.drop_last());
    }
}

/// Whether a record gives a name an address: four octets of IPv4 or sixteen of
/// IPv6.
pub open spec fn gives_address(record: RecordView, owner: Labels, octets: Seq<u8>) -> bool {
    &&& record.name == owner
    &&& record.rdata == octets
    &&& (record.record_type == RecordType::A && octets.len() == 4) || (record.record_type
        == RecordType::Aaaa && octets.len() == 16)
}

proof fn lemma_with_addresses_complete(
    found: Seq<AddressView>,
    owner: Labels,
    records: Seq<RecordView>,
    address: AddressView,
)
    ensures
        with_addresses_of(found, owner, records).contains(address) <==> found.contains(address) || (
        address.port == DNS_PORT && exists|i: int|
            0 <= i < records.len() && gives_address(#[trigger] records[i], owner, address.ip)),
    decreases records.len(),
{
    if records.len() > 0 {
        let rest = records.drop_last();
        let record = records.last();
        let before = with_addresses_of(found, owner, rest);
        let after = with_addresses_of(found, owner, records);
        lemma_with_addresses_complete(found, owner, rest, address);
        if before.contains(address) {
            let i = choose|i: int| 0 <= i < before.len() && before[i] == address;
            assert(after[i] == address);
            if !found.contains(address) {
                let k = choose|k: int|
                    0 <= k < rest.len() && gives_address(#[trigger] rest[k], owner, address.ip);
                assert(gives_address(records[k], owner, address.ip));
            }
        }
        if gives_address(record, owner, address.ip) && address.port == DNS_PORT {
            let made = AddressView { ip: record.rdata, port: DNS_PORT };
            assert(made == address);
            if !before.contains(address) {
                assert(after.last() == address);
            }
        }
        if after.contains(address) && !before.contains(address) {
            let i = choose|i: int| 0 <= i < after.len() && after[i] == address;
            if i < before.len() {
                assert(before[i] == address);
            }
            assert(gives_address(records[records.len() - 1], owner, address.ip));
        }
        if exists|k: int|
            0 <= k < records.len() && gives_address(#[trigger] records[k], owner, address.ip) {
            let k = choose|k: int|
                0 <= k < records.len() && gives_address(#[trigger] records[k], owner, address.ip);
            if k < rest.len() {
                assert(gives_address(rest[k], owner, address.ip));
            }
        }
    }
}

proof fn lemma_addresses_complete(
    names: Seq<Labels>,
    records: Seq<RecordView>,
    address: AddressView,
)
    ensures
        addresses_of(names, records).contains(address) <==> address.port == DNS_PORT && exists|
            n: int,
            i: int,
        |
            0 <= n < names.len() && 0 <= i < records.len() && gives_address(
                #[trigger] records[i],
                #[trigger] names[n],
                address.ip,
            ),
    decreases names.len(),
{
    if names.len() > 0 {
        let rest = names.drop_last();
        lemma_addresses_complete(rest, records, address);
        lemma_with_addresses_complete(
            addresses_of(rest, records),
            names.last(),
            records,
            address,
        );
        if exists|n: int, i: int|
            0 <= n < names.len() && 0 <= i < records.len() && gives_address(
                #[trigger] records[i],
                #[trigger] names[n],
                address.ip,
            ) {
            let (n, i) = choose|n: int, i: int|
                0 <= n < names.len() && 0 <= i < records.len() && gives_address(
                    #[trigger] records[i],
                    #[trigger] names[n],
                    address.ip,
                );
            if n < rest.len() {
                assert(gives_address(records[i], rest[n], address.ip));
            }
        }
        if exists|n: int, i: int|
            0 <= n < rest.len() && 0 <= i < records.len() && gives_address(
                #[trigger] records[i],
                #[trigger] rest[n],
                address.ip,
            ) {
            let (n, i) = choose|n: int, i: int|
                0 <= n < rest.len() && 0 <= i < records.len() && gives_address(
                    #[trigger] records[i],
                    #[trigger] rest[n],
                    address.ip,
                );
            assert(gives_address(records[i], names[n], address.ip));
        }
        if exists|i: int|
            0 <= i < records.len() && gives_address(
                #[trigger] records[i],
                names.last(),
                address.ip,
            ) {
            let i = choose|i: int|
                0 <= i < records.len() && gives_address(
                    #[trigger] records[i],
                    names.last(),
                    address.ip,
                );
            assert(gives_address(records[i], names[names.len() - 1], address.ip));
        }
    }
}

/// The list of servers is complete and holds nothing else: octets stand in it, on
/// port 53, exactly where an A record of four octets or an AAAA record of sixteen
/// gives them to one of the names.
pub proof fn law_servers_are_complete(
    names: Seq<Labels>,
    records: Seq<RecordView>,
    octets: Seq<u8>,
    port: u16,
)
    ensures
        addresses_of(names, records).contains((AddressView { ip: octets, port })) <==> {
            &&& port == 53
            &&& exists|n: int, i: int|
                {
                    &&& 0 <= n < names.len()
                    &&& 0 <= i < records.len()
                    &&& (#[trigger] records[i]).name == #[trigger] names[n]
                    &&& records[i].rdata == octets
                    &&& (records[i].record_type == RecordType::A && octets.len() == 4) || (
                    records[i].record_type == RecordType::Aaaa && octets.len() == 16)
                }
        },
{
    lemma_addresses_complete(names, records, AddressView { ip: octets, port });
    if exists|n: int, i: int|
        {
            &&& 0 <= n < names.len()
            &&& 0 <= i < records.len()
            &&& (#[trigger] records[i]).name == #[trigger] names[n]
            &&& records[i].rdata == octets
            &&& (records[i].record_type == RecordType::A && octets.len() == 4) || (
            records[i].record_type == RecordType::Aaaa && octets.len() == 16)
        } {
        let (n, i) = choose|n: int, i: int|
            {
                &&& 0 <= n < names.len()
                &&& 0 <= i < records.len()
                &&& (#[trigger] records[i]).name == #[trigger] names[n]
                &&& records[i].rdata == octets
                &&& (records[i].record_type == RecordType::A && octets.len() == 4) || (
                records[i].record_type == RecordType::Aaaa && octets.len() == 16)
            };
        assert(gives_address(records[i], names[n], octets));
    }
}

proof fn lemma_targets_complete(records: Seq<RecordView>, target: Labels)
    ensures
        distinct_targets(records).contains(target) <==> exists|i: int|
            0 <= i < records.len() && (#[trigger] records[i]).target == Some(target),
        distinct_targets(records).no_duplicates(),
    decreases records.len(),
{
    if records.len() > 0 {
        let rest = records.drop_last();
        let before = distinct_targets(rest);
        let after = distinct_targets(records);
        lemma_targets_complete(rest, target);
        if before.contains(target) {
            let i = choose|i: int| 0 <= i < before.len() && before[i] == target;
            assert(after[i] == target);
            let k = choose|k: int| 0 <= k < rest.len() && (#[trigger] rest[k]).target == Some(target);
            assert(records[k].target == Some(target));
        }
        if after.contains(target) && !before.contains(target) {
            let i = choose|i: int| 0 <= i < after.len() && after[i] == target;
            if i < before.len() {
                assert(before[i] == target);
            }
            assert(records[records.len() - 1].target == Some(target));
        }
        if exists|k: int| 0 <= k < records.len() && (#[trigger] records[k]).target == Some(target) {
            let k = choose|k: int|
                0 <= k < records.len() && (#[trigger] records[k]).target == Some(target);
            if k < rest.len() {
                assert(rest[k].target == Some(target));
            } else if !before.contains(target) {
                assert(after.last() == target);
            }
        }
    }
}

/// Every nameserver that the NS records of a zone name is listed, once, and no
/// other name is.
pub proof fn law_nameservers_are_complete(
    records: Seq<RecordView>,
    owner: Labels,
    target: Labels,
)
    ensures
        ns_names(records, owner).contains(target) <==> exists|i: int|
            {
                &&& 0 <= i < records.len()
                &&& (#[trigger] records[i]).name == owner
                &&& records[i].record_type == RecordType::Ns
                &&& records[i].target == Some(target)
            },
        ns_names(records, owner).no_duplicates(),
{
    let set = dns::rrset(records, owner, RecordType::Ns);
    lemma_targets_complete(set, target);
    if exists|i: int| 0 <= i < set.len() && (#[trigger] set[i]).target == Some(target) {
        let i = choose|i: int| 0 <= i < set.len() && (#[trigger] set[i]).target == Some(target);
        dns::law_rrset_is_complete(records, owner, RecordType::Ns, set[i]);
        assert(set.contains(set[i]));
        let k = choose|k: int| 0 <= k < records.len() && records[k] == set[i];
        assert(records[k].target == Some(target));
    }
    if exists|i: int|
        {
            &&& 0 <= i < records.len()
            &&& (#[trigger] records[i]).name == owner
            &&& records[i].record_type == RecordType::Ns
            &&& records[i].target == Some(target)
        } {
        let i = choose|i: int|
            {
                &&& 0 <= i < records.len()
                &&& (#[trigger] records[i]).name == owner
                &&& records[i].record_type == RecordType::Ns
                &&& records[i].target == Some(target)
            };
        dns::law_rrset_is_complete(records, owner, RecordType::Ns, records[i]);
        let k = choose|k: int| 0 <= k < set.len() && set[k] == records[i];
        assert(set[k].target == Some(target));
    }
}

/// An address that a delegation's own records give to one of the nameservers that
/// they name is among the servers that are asked, on port 53.
pub proof fn law_glue_is_used(delegation: DelegationView, ns: int, glue: int)
    requires
        0 <= ns < delegation.records.len(),
        0 <= glue < delegation.records.len(),
        delegation.records[ns].name == delegation.owner,
        delegation.records[ns].record_type == RecordType::Ns,
        delegation.records[ns].target == Some(delegation.records[glue].name),
        (delegation.records[glue].record_type == RecordType::A
            && delegation.records[glue].rdata.len() == 4) || (delegation.records[glue].record_type
            == RecordType::Aaaa && delegation.records[glue].rdata.len() == 16),
    ensures
        delegation_servers(delegation).contains(
            (AddressView { ip: delegation.records[glue].rdata, port: 53 }),
        ),
{
    let records = delegation.records;
    let target = records[glue].name;
    law_nameservers_are_complete(records, delegation.owner, target);
    assert(records[ns].target == Some(target));
    let names = ns_names(records, delegation.owner);
    let n = choose|n: int| 0 <= n < names.len() && names[n] == target;
    assert(records[glue].name == names[n]);
    law_servers_are_complete(names, records, records[glue].rdata, 53);
}

/// A signed referral to a child zone.
#[derive(Clone, Debug, PartialEq, Eq)]
pub struct ChildReferral {
    pub owner: DnsName,
    pub ds_rrset: Vec<ResourceRecord>,
    pub ds_rrsig_rrset: Vec<ResourceRecord>,
    pub servers: Vec<ServerAddress>,
}

pub struct ReferralView {
    pub owner: Labels,
    pub ds_rrset: Seq<RecordView>,
    pub ds_rrsig_rrset: Seq<RecordView>,
    pub servers: Seq<AddressView>,
}

impl View for ChildReferral {
    type V = ReferralView;

    open spec fn view(&self) -> ReferralView {
        ReferralView {
            owner: self.owner@,
            ds_rrset: dns::record_views(self.ds_rrset@),
            ds_rrsig_rrset: dns::record_views(self.ds_rrsig_rrset@),
            servers: dns::address_views(self.servers@),
        }
    }
}

/// Whether a nameserver record hands part of `parent`, with `request` in it, to
/// a zone below.
pub open spec fn refers(record: RecordView, parent: Labels, request: Labels) -> bool {
    record.record_type == RecordType::Ns && record.name != parent && name::ends_with(
        record.name,
        parent,
    ) && name::ends_with(request, record.name)
}

/// The deepest zone that the records refer to; of equally deep ones the last.
pub open spec fn deepest_cut(records: Seq<RecordView>, parent: Labels, request: Labels) -> Option<
    Labels,
>
    decreases records.len(),
{
    if records.len() == 0 {
        None
    } else {
        let before = deepest_cut(records.drop_last(), parent, request);
        let record = records.last();
        if refers(record, parent, request) && (match before {
            Some(best) => record.name.len() >= best.len(),
            None => true,
        }) {
            Some(record.name)
        } else {
            before
        }
    }
}

/// The signed referral in a response; `None` where there is none.
pub open spec fn referral_in(response: MessageView, parent: Labels, request: Labels) -> Option<
    ReferralView,
> {
    match deepest_cut(response.authorities, parent, request) {
        None => None,
        Some(owner) => {
            let ns = dns::rrset(response.authorities, owner, RecordType::Ns);
            let ds = dns::rrset(response.authorities, owner, RecordType::Ds);
            let sigs = dns::rrset(response.authorities, owner, RecordType::Rrsig);
            if ns.len() == 0 || ds.len() == 0 || sigs.len() == 0 {
                None
            } else {
                Some(
                    ReferralView {
                        owner,
                        ds_rrset: ds,
                        ds_rrsig_rrset: sigs,
                        servers: addresses_of(distinct_targets(ns), response.additionals),
                    },
                )
            }
        },
    }
}

fn find_cut(records: &Vec<ResourceRecord>, parent: &DnsName, request: &DnsName) -> (r: Option<
    DnsName,
>)
    ensures
        match r {
            Some(owner) => deepest_cut(dns::record_views(records@), parent@, request@) == Some(
                owner@,
            ),
            None => deepest_cut(dns::record_views(records@), parent@, request@) is None,
        },
{
    let ghost all = dns::record_views(records@);
    let mut best: Option<DnsName> = None;
    let mut i: usize = 0;
    assert(all.take(0) =~= Seq::empty());
    while i < records.len()
        invariant
            i <= records.len(),
            all == dns::record_views(records@),
            match best {
                Some(owner) => deepest_cut(all.take(i as int), parent@, request@) == Some(owner@),
                None => deepest_cut(all.take(i as int), parent@, request@) is None,
            },
        decreases records.len() - i,
    {
        proof {
            assert(all.take(i + 1).drop_last() =~= all.take(i as int));
            assert(all.take(i + 1).last() == records@[i as int]@);
        }
        let record = &records[i];
        let deeper = match &best {
            Some(owner) => record.name.labels.len() >= owner.labels.len(),
            None => true,
        };
        if record.record_type == RecordType::Ns && deeper && !record.name.same(parent)
            && record.name.is_at_or_below(parent) && request.is_at_or_below(&record.name) {
            best = Some(record.name.copy());
        }
        i = i + 1;
    }
    assert(all.take(i as int) =~= all);
    best
}

pub fn child_referral(response: &DnsMessage, parent_owner: &DnsName, request_name: &DnsName) -> (r:
    Option<ChildReferral>)
    ensures
        match r {
            Some(referral) => referral_in(response@, parent_owner@, request_name@) == Some(
                referral@,
            ),
            None => referral_in(response@, parent_owner@, request_name@) is None,
        },
{
    match find_cut(&response.authorities, parent_owner, request_name) {
        None => None,
        Some(owner) => {
            let ns_rrset = dns::records_for(&response.authorities, &owner, RecordType::Ns);
            let ds_rrset = dns::records_for(&response.authorities, &owner, RecordType::Ds);
            let ds_rrsig_rrset = dns::records_for(&response.authorities, &owner, RecordType::Rrsig);
            assert(dns::record_views(ns_rrset@).len() == ns_rrset@.len());
            assert(dns::record_views(ds_rrset@).len() == ds_rrset@.len());
            assert(dns::record_views(ds_rrsig_rrset@).len() == ds_rrsig_rrset@.len());
            if ns_rrset.len() == 0 || ds_rrset.len() == 0 || ds_rrsig_rrset.len() == 0 {
                return None;
            }
            let servers = referral_nameserver_addresses(&ns_rrset, &response.additionals);
            Some(ChildReferral { owner, ds_rrset, ds_rrsig_rrset, servers })
        },
    }
}

/// A referral leads strictly below the parent zone, and to a zone that holds
/// the requested name.
pub proof fn law_referral_descends(response: MessageView, parent: Labels, request: Labels)
    requires
        referral_in(response, parent, request) is Some,
    ensures
        ({
            let owner = referral_in(response, parent, request)->0.owner;
            &&& owner != parent
            &&& name::ends_with(owner, parent)
            &&& name::ends_with(request, owner)
            &&& owner.len() > parent.len()
            &&& referral_in(response, parent, request)->0.ds_rrset.len() > 0
            &&& referral_in(response, parent, request)->0.ds_rrsig_rrset.len() > 0
        }),
{
    lemma_cut_refers(response.authorities, parent, request);
    let owner = referral_in(response, parent, request)->0.owner;
    if owner.len() == parent.len() {
        assert(owner.skip(0) =~= owner);
    }
}

proof fn lemma_cut_refers(records: Seq<RecordView>, parent: Labels, request: Labels)
    ensures
        deepest_cut(records, parent, request) matches Some(owner) ==> owner != parent
            && name::ends_with(owner, parent) && name::ends_with(request, owner),
    decreases records.len(),
{
    if records.len() > 0 {
        lemma_cut_refers(records.drop_last(), parent, request);
    }
}

/// The query for a name and type: one question, and the option record that asks
/// for DNSSEC records.
pub open spec fn query_for(id: u16, qname: Labels, qtype: RecordType, flags: u16) -> MessageView {
    MessageView {
        id,
        flags,
        questions: seq![QuestionView { name: qname, record_type: qtype, class: DNS_CLASS_IN }],
        answers: Seq::empty(),
        authorities: Seq::empty(),
        additionals: seq![
            RecordView {
                name: Seq::empty(),
                record_type: RecordType::Unknown(DNS_OPT_RECORD_TYPE),
                class: DEFAULT_DNS_UDP_PAYLOAD,
                ttl: DNSSEC_DO_FLAG,
                rdata: Seq::empty(),
                target: None,
            },
        ],
    }
}

/// A query with the given flag word.
pub fn build_query(id: u16, qname: &DnsName, qtype: RecordType, flags: u16) -> (r: DnsMessage)
    ensures
        r@ == query_for(id, qname@, qtype, flags),
{
    let mut questions: Vec<DnsQuestion> = Vec::new();
    questions.push(DnsQuestion { name: qname.copy(), record_type: qtype, class: DNS_CLASS_IN });
    let mut additionals: Vec<ResourceRecord> = Vec::new();
    additionals.push(
        ResourceRecord {
            name: DnsName::root(),
            record_type: RecordType::Unknown(DNS_OPT_RECORD_TYPE),
            class: DEFAULT_DNS_UDP_PAYLOAD,
            ttl: DNSSEC_DO_FLAG,
            rdata: Vec::new(),
            target: None,
        },
    );
    let r = DnsMessage {
        id,
        flags,
        questions,
        answers: Vec::new(),
        authorities: Vec::new(),
        additionals,
    };
    proof {
        let expected = query_for(id, qname@, qtype, flags);
        assert(r@.questions =~= expected.questions);
        assert(r@.answers =~= expected.answers);
        assert(r@.authorities =~= expected.authorities);
        assert(r@.additionals =~= expected.additionals);
    }
    r
}

/// The query that goes to an authoritative server.
pub fn build_dns_query(id: u16, qname: &DnsName, qtype: RecordType) -> (r: DnsMessage)
    ensures
        r@ == query_for(id, qname@, qtype, 0),
{
    build_query(id, qname, qtype, 0)
}

/// Whether a message answers the query: same identifier and question, marked as
/// a response to a standard query, without an error other than a missing name.
pub open spec fn answers_query(message: MessageView, id: u16, qname: Labels, qtype: RecordType) -> bool {
    &&& message.id == id
    &&& dns::is_response(message.flags)
    &&& dns::opcode_of(message.flags) == 0
    &&& dns::rcode_of(message.flags) == DNS_RCODE_NOERROR || dns::rcode_of(message.flags)
        == DNS_RCODE_NXDOMAIN
    &&& message.questions.len() == 1
    &&& message.questions[0] == QuestionView {
        name: qname,
        record_type: qtype,
        class: DNS_CLASS_IN,
    }
}

pub fn response_answers_query(message: &DnsMessage, id: u16, qname: &DnsName, qtype: RecordType) -> (r:
    bool)
    ensures
        r == answers_query(message@, id, qname@, qtype),
{
    let rcode: u16 = message.flags % 16;
    assert(message@.questions.len() == message.questions@.len());
    if message.id != id || message.flags < 0x8000 || (message.flags / 2048) % 16 != 0 || (rcode
        != DNS_RCODE_NOERROR && rcode != DNS_RCODE_NXDOMAIN) || message.questions.len() != 1 {
        return false;
    }
    let question = &message.questions[0];
    assert(message@.questions[0] == question@);
    question.record_type == qtype && question.class == DNS_CLASS_IN && question.name.same(qname)
}

/// A reply as it is used: the message where it answers the query, else the
/// error for an invalid response.
pub open spec fn checked_reply(
    reply: Result<MessageView, ResolverError>,
    id: u16,
    qname: Labels,
    qtype: RecordType,
) -> Result<MessageView, ResolverError> {
    match reply {
        Ok(message) => if answers_query(message, id, qname, qtype) {
            Ok(message)
        } else {
            Err(ResolverError::InvalidDnsResponse)
        },
        Err(error) => Err(error),
    }
}

pub open spec fn message_reply(r: Result<DnsMessage, ResolverError>) -> Result<
    MessageView,
    ResolverError,
> {
    match r {
        Ok(message) => Ok(message@),
        Err(error) => Err(error),
    }
}

pub fn parse_dns_response(
    id: u16,
    qname: &DnsName,
    qtype: RecordType,
    reply: Result<DnsMessage, ResolverError>,
) -> (r: Result<DnsMessage, ResolverError>)
    ensures
        message_reply(r) == checked_reply(message_reply(reply), id, qname@, qtype),
{
    match reply {
        Ok(message) => {
            if response_answers_query(&message, id, qname, qtype) {
                Ok(message)
            } else {
                Err(ResolverError::InvalidDnsResponse)
            }
        },
        Err(error) => Err(error),
    }
}

/// The single name that an alias record set points to.
pub open spec fn alias_target(records: Seq<RecordView>) -> Option<Labels> {
    if records.len() == 1 && records[0].record_type == RecordType::Cname {
        records[0].target
    } else {
        None
    }
}

pub fn cname_target(cname_rrset: &Vec<ResourceRecord>) -> (r: Result<DnsName, ResolverError>)
    ensures
        match r {
            Ok(target) => alias_target(dns::record_views(cname_rrset@)) == Some(target@),
            Err(error) => alias_target(dns::record_views(cname_rrset@)) is None && error
                == ResolverError::DnssecFailed,
        },
{
    assert(dns::record_views(cname_rrset@).len() == cname_rrset@.len());
    if cname_rrset.len() != 1 {
        return Err(ResolverError::DnssecFailed);
    }
    assert(dns::record_views(cname_rrset@)[0] == cname_rrset@[0]@);
    match cname_rrset[0].record_type {
        RecordType::Cname => {},
        _ => {
            return Err(ResolverError::DnssecFailed);
        },
    }
    match &cname_rrset[0].target {
        Some(target) => Ok(target.copy()),
        None => Err(ResolverError::DnssecFailed),
    }
}

/// The names between a missing name and its zone, from the nearest to the zone
/// itself.
pub open spec fn enclosers(query: Labels, zone: Labels) -> Seq<Labels> {
    if query.len() <= zone.len() || !name::ends_with(query, zone) {
        Seq::empty()
    } else {
        Seq::new((query.len() - zone.len()) as nat, |i: int| query.skip(i + 1))
    }
}

pub fn closest_encloser_candidates(query_name: &DnsName, zone_owner: &DnsName) -> (r: Vec<DnsName>)
    ensures
        name_views(r@) == enclosers(query_name@, zone_owner@),
{
    let mut out: Vec<DnsName> = Vec::new();
    if query_name.labels.len() <= zone_owner.labels.len() || !query_name.is_at_or_below(zone_owner) {
        assert(name_views(out@) =~= Seq::empty());
        return out;
    }
    let count: usize = query_name.labels.len() - zone_owner.labels.len();
    let mut i: usize = 0;
    while i < count
        invariant
            i <= count,
            count == query_name.labels@.len() - zone_owner.labels@.len(),
            out.len() == i,
            forall|j: int| 0 <= j < i ==> (#[trigger] out@[j])@ == query_name@.skip(j + 1),
        decreases count - i,
    {
        out.push(query_name.suffix(i + 1));
        i = i + 1;
    }
    assert(name_views(out@) =~= enclosers(query_name@, zone_owner@));
    out
}

/// The last candidate is the zone itself, and every candidate lies in the zone.
pub proof fn law_enclosers_reach_the_zone(query: Labels, zone: Labels)
    requires
        query.len() > zone.len(),
        name::ends_with(query, zone),
    ensures
        enclosers(query, zone).last() == zone,
        forall|i: int|
            0 <= i < enclosers(query, zone).len() ==> name::ends_with(
                #[trigger] enclosers(query, zone)[i],
                zone,
            ),
{
    let all = enclosers(query, zone);
    assert(all.last() =~= query.skip(query.len() - zone.len()));
    assert forall|i: int| 0 <= i < all.len() implies name::ends_with(#[trigger] all[i], zone) by {
        let candidate = query.skip(i + 1);
        assert(candidate.skip(candidate.len() - zone.len()) =~= query.skip(
            query.len() - zone.len(),
        ));
    }
}

/// The identifiers of the queries to authoritative servers, counted upward.
#[derive(Clone, Debug, PartialEq, Eq)]
pub struct QueryIds {
    pub last: u16,
}

pub const FIRST_DNS_QUERY_ID: u16 = 0x4d00;

pub const FIRST_DOH_QUERY_ID: u16 = 0x484e;

/// The identifier after `last`.
pub open spec fn id_after(last: u16) -> u16 {
    if last == u16::MAX {
        0
    } else {
        (last + 1) as u16
    }
}

impl QueryIds {
    pub fn for_dns() -> (r: QueryIds)
        ensures
            r.last == FIRST_DNS_QUERY_ID,
    {
        QueryIds { last: FIRST_DNS_QUERY_ID }
    }

    pub fn for_doh() -> (r: QueryIds)
        ensures
            r.last == FIRST_DOH_QUERY_ID,
    {
        QueryIds { last: FIRST_DOH_QUERY_ID }
    }

    fn advance(&mut self) -> (r: u16)
        ensures
            r == id_after(old(self).last),
            final(self).last == r,
    {
        self.last = if self.last == u16::MAX {
            0
        } else {
            self.last + 1
        };
        self.last
    }
}

pub fn next_dns_query_id(ids: &mut QueryIds) -> (r: u16)
    ensures
        r == id_after(old(ids).last),
        final(ids).last == r,
{
    ids.advance()
}

pub fn next_doh_query_id(ids: &mut QueryIds) -> (r: u16)
    ensures
        r == id_after(old(ids).last),
        final(ids).last == r,
{
    ids.advance()
}

/// The zone that is referred to is the deepest: one of the records refers to it,
/// and none refers further down; there is none only where no record refers.
pub proof fn law_cut_is_the_deepest(records: Seq<RecordView>, parent: Labels, request: Labels)
    ensures
        deepest_cut(records, parent, request) is None <==> forall|i: int|
            0 <= i < records.len() ==> !refers(#[trigger] records[i], parent, request),
        deepest_cut(records, parent, request) matches Some(owner) ==> {
            &&& exists|i: int|
                0 <= i < records.len() && (#[trigger] records[i]).name == owner && refers(
                    records[i],
                    parent,
                    request,
                )
            &&& forall|i: int|
                0 <= i < records.len() && refers(#[trigger] records[i], parent, request)
                    ==> records[i].name.len() <= owner.len()
        },
    decreases records.len(),
{
    if records.len() > 0 {
        let rest = records.drop_last();
        law_cut_is_the_deepest(rest, parent, request);
        let before = deepest_cut(rest, parent, request);
        let cut = deepest_cut(records, parent, request);
        assert forall|i: int| 0 <= i < rest.len() implies #[trigger] records[i] == rest[i] by {
        }
        assert(records[records.len() - 1] == records.last());
        if before is Some {
            let k = choose|k: int|
                0 <= k < rest.len() && (#[trigger] rest[k]).name == before->0 && refers(
                    rest[k],
                    parent,
                    request,
                );
            assert(records[k].name == before->0 && refers(records[k], parent, request));
        }
        if cut is Some {
            assert forall|i: int|
                0 <= i < records.len() && refers(#[trigger] records[i], parent, request) implies
                records[i].name.len() <= cut->0.len() by {
                if i < rest.len() {
                    assert(refers(rest[i], parent, request));
                }
            }
        }
        if cut is None {
            assert forall|i: int| 0 <= i < records.len() implies !refers(
                #[trigger] records[i],
                parent,
                request,
            ) by {
                if i < rest.len() {
                    assert(!refers(rest[i], parent, request));
                }
            }
        }
    }
}

/// What a nameserver record refers to: a zone strictly below the parent that holds
/// the requested name.
pub proof fn law_what_refers(record: RecordView, parent: Labels, request: Labels)
    ensures
        refers(record, parent, request) <==> {
            &&& record.record_type == RecordType::Ns
            &&& parent.len() < record.name.len() <= request.len()
            &&& record.name.skip(record.name.len() - parent.len()) == parent
            &&& request.skip(request.len() - record.name.len()) == record.name
        },
{
    if record.name.len() == parent.len() {
        assert(record.name.skip(0) =~= record.name);
    }
}

/// A response with NS, DS and RRSIG records for a zone that holds the requested
/// name is a referral to it, if it refers no further down: with all of those DS
/// records and signatures, and with every address that the additional records
/// give its nameservers.
pub proof fn law_signed_referral_is_followed(
    response: MessageView,
    parent: Labels,
    request: Labels,
    ns: int,
    ds: int,
    signature: int,
)
    requires
        0 <= ns < response.authorities.len(),
        0 <= ds < response.authorities.len(),
        0 <= signature < response.authorities.len(),
        refers(response.authorities[ns], parent, request),
        forall|i: int|
            0 <= i < response.authorities.len() && refers(
                #[trigger] response.authorities[i],
                parent,
                request,
            ) ==> response.authorities[i].name.len() <= response.authorities[ns].name.len(),
        response.authorities[ds].name == response.authorities[ns].name,
        response.authorities[ds].record_type == RecordType::Ds,
        response.authorities[signature].name == response.authorities[ns].name,
        response.authorities[signature].record_type == RecordType::Rrsig,
    ensures
        referral_in(response, parent, request) is Some,
        ({
            let referral = referral_in(response, parent, request)->0;
            &&& referral.owner == response.authorities[ns].name
            &&& referral.ds_rrset.contains(response.authorities[ds])
            &&& referral.ds_rrsig_rrset.contains(response.authorities[signature])
            &&& forall|i: int|
                0 <= i < response.additionals.len() && response.authorities[ns].target == Some(
                    (#[trigger] response.additionals[i]).name,
                ) && ((response.additionals[i].record_type == RecordType::A
                    && response.additionals[i].rdata.len() == 4) || (
                response.additionals[i].record_type == RecordType::Aaaa
                    && response.additionals[i].rdata.len() == 16)) ==> referral.servers.contains(
                    (AddressView { ip: response.additionals[i].rdata, port: 53 }),
                )
        }),
{
    let records = response.authorities;
    let owner = records[ns].name;
    law_cut_is_the_deepest(records, parent, request);
    let cut = deepest_cut(records, parent, request);
    assert(refers(records[ns], parent, request));
    assert(cut is Some);
    let k = choose|k: int|
        0 <= k < records.len() && (#[trigger] records[k]).name == cut->0 && refers(
            records[k],
            parent,
            request,
        );
    law_what_refers(records[k], parent, request);
    law_what_refers(records[ns], parent, request);
    assert(cut->0.len() == owner.len());
    assert(cut->0 == owner);
    dns::law_rrset_is_complete(records, owner, RecordType::Ns, records[ns]);
    dns::law_rrset_is_complete(records, owner, RecordType::Ds, records[ds]);
    dns::law_rrset_is_complete(records, owner, RecordType::Rrsig, records[signature]);
    assert(records.contains(records[ns]));
    assert(records.contains(records[ds]));
    assert(records.contains(records[signature]));
    let set = dns::rrset(records, owner, RecordType::Ns);
    let names = distinct_targets(set);
    let referral = referral_in(response, parent, request)->0;
    assert forall|i: int|
        0 <= i < response.additionals.len() && records[ns].target == Some(
            (#[trigger] response.additionals[i]).name,
        ) && ((response.additionals[i].record_type == RecordType::A
            && response.additionals[i].rdata.len() == 4) || (response.additionals[i].record_type
            == RecordType::Aaaa && response.additionals[i].rdata.len() == 16)) implies
        referral.servers.contains(
        (AddressView { ip: response.additionals[i].rdata, port: 53 }),
    ) by {
        let target = response.additionals[i].name;
        lemma_targets_complete(set, target);
        let at = choose|at: int| 0 <= at < set.len() && set[at] == records[ns];
        assert(set[at].target == Some(target));
        let n = choose|n: int| 0 <= n < names.len() && names[n] == target;
        assert(response.additionals[i].name == names[n]);
        law_servers_are_complete(names, response.additionals, response.additionals[i].rdata, 53);
    }
}

/// A query asks one question of the Internet class, in the name and type that are
/// wanted, and asks for DNSSEC records along with the answer, in up to 1232 bytes.
pub proof fn law_query_asks_for_signed_answers(
    id: u16,
    qname: Labels,
    qtype: RecordType,
    flags: u16,
)
    ensures
        ({
            let query = query_for(id, qname, qtype, flags);
            &&& query.id == id
            &&& query.flags == flags
            &&& query.questions.len() == 1
            &&& query.questions[0].name == qname
            &&& query.questions[0].record_type == qtype
            &&& query.questions[0].class == 1
            &&& query.answers.len() == 0
            &&& query.authorities.len() == 0
            &&& query.additionals.len() == 1
            &&& query.additionals[0].name.len() == 0
            &&& query.additionals[0].record_type == RecordType::Unknown(41)
            &&& query.additionals[0].class == 1232
            &&& query.additionals[0].ttl == 0x8000
            &&& query.additionals[0].rdata.len() == 0
        }),
{
}

/// A message answers a query exactly where it has the query's identifier and its
/// one question, is marked as a response to a standard query, and reports no
/// error, or that the name does not exist.
pub proof fn law_what_answers_a_query(
    message: MessageView,
    id: u16,
    qname: Labels,
    qtype: RecordType,
)
    ensures
        answers_query(message, id, qname, qtype) <==> {
            &&& message.id == id
            &&& 0x8000 <= message.flags < 0x8800
            &&& message.flags % 16 == 0 || message.flags % 16 == 3
            &&& message.questions.len() == 1
            &&& message.questions[0].name == qname
            &&& message.questions[0].record_type == qtype
            &&& message.questions[0].class == 1
        },
{
}

/// The candidates for the closest encloser of a missing name are all the names
/// above it within the zone, the zone's own among them, and no others.
pub proof fn law_enclosers_are_complete(query: Labels, zone: Labels, candidate: Labels)
    requires
        query.len() > zone.len(),
        name::ends_with(query, zone),
    ensures
        enclosers(query, zone).contains(candidate) <==> zone.len() <= candidate.len() < query.len()
            && query.skip(query.len() - candidate.len()) == candidate,
{
    let all = enclosers(query, zone);
    if all.contains(candidate) {
        let i = choose|i: int| 0 <= i < all.len() && all[i] == candidate;
        assert(candidate == query.skip(i + 1));
    }
    if zone.len() <= candidate.len() < query.len() && query.skip(query.len() - candidate.len())
        == candidate {
        let i = query.len() - candidate.len() - 1;
        assert(all[i] == candidate);
    }
}

/// An alias is followed only where it is the one record of its set.
pub proof fn law_only_a_single_alias_is_followed(records: Seq<RecordView>, target: Labels)
    ensures
        alias_target(records) == Some(target) <==> records.len() == 1 && records[0].record_type
            == RecordType::Cname && records[0].target == Some(target),
{
}

/// Identifiers are counted upward, and begin again at zero after the last.
pub proof fn law_identifiers_count_upward(last: u16)
    ensures
        id_after(last) as int == (last as int + 1) % 65_536,
{
}

} // verus!
