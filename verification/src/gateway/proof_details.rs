//! What is known of the proof of a name, as the browser shows it.
use crate::dns;
use crate::dns::{RecordView, ResourceRecord};
use crate::error::ResolverError;
use crate::gateway::json;
use crate::gateway::resolution_trace;
use crate::hash;
use crate::hash::{Hash256, NameHash};
use crate::name;
use crate::proven;
use crate::proven::{
    AnchorView, HnsResourceValueProvider, ProvenNameRecords, ResourceValueAnchor, ValueView,
    VerifiedResourceValue,
};
use crate::store;
use crate::store::{RowView, SqliteResourceValueProvider};
use crate::text;
use vstd::prelude::*;
use vstd::string::*;

verus! {

/// A text without one scheme in front of it.
pub open spec fn without_scheme(s: Seq<char>) -> Seq<char> {
    if text::occurs_at(s, "https://"@, 0) {
        s.skip(8)
    } else if text::occurs_at(s, "http://"@, 0) {
        s.skip(7)
    } else {
        s
    }
}

fn strip_scheme(cs: &Vec<char>) -> (r: Vec<char>)
    ensures
        r@ == without_scheme(cs@),
{
    proof {
        reveal_strlit("https://");
        reveal_strlit("http://");
    }
    let https = text::chars_of("https://");
    let http = text::chars_of("http://");
    let from: usize = if text::has_at(cs, &https, 0) {
        8
    } else if text::has_at(cs, &http, 0) {
        7
    } else {
        0
    };
    let r = text::chars_range(cs, from, cs.len());
    assert(r@ =~= without_scheme(cs@));
    r
}

pub open spec fn all_digits(s: Seq<char>) -> bool {
    forall|i: int| 0 <= i < s.len() ==> text::is_digit(#[trigger] s[i])
}

fn are_digits(cs: &Vec<char>, from: usize) -> (r: bool)
    requires
        from <= cs@.len(),
    ensures
        r == all_digits(cs@.skip(from as int)),
{
    let ghost rest = cs@.skip(from as int);
    let mut i: usize = from;
    while i < cs.len()
        invariant
            from <= i <= cs@.len(),
            rest == cs@.skip(from as int),
            forall|j: int| 0 <= j < i - from ==> text::is_digit(#[trigger] rest[j]),
        decreases cs@.len() - i,
    {
        if !('0' <= cs[i] && cs[i] <= '9') {
            assert(rest[i - from] == cs@[i as int]);
            return false;
        }
        assert(rest[i - from] == cs@[i as int]);
        i = i + 1;
    }
    true
}

/// An authority without its port.
pub open spec fn without_port(authority: Seq<char>) -> Seq<char> {
    let at = text::find_last(authority, ':');
    if at < authority.len() && all_digits(authority.skip(at as int + 1)) {
        authority.take(at as int)
    } else {
        authority
    }
}

/// The host that a host or an address names.
pub open spec fn named_host(host_or_url: Seq<char>) -> Seq<char> {
    text::lower(
        text::trim_end_dots(
            without_port(
                text::trim(name::host_prefix(without_scheme(text::trim(host_or_url)))),
            ),
        ),
    )
}

/// The host and its root, or why there is none.
pub open spec fn host_and_root(host_or_url: Seq<char>) -> Result<
    (Seq<char>, Seq<char>),
    Seq<char>,
> {
    let host = named_host(host_or_url);
    let root = text::lower(name::trace_root(host));
    if host.len() == 0 {
        Err("missing HNS host"@)
    } else if root.len() == 0 {
        Err("missing HNS root"@)
    } else {
        Ok((host, root))
    }
}

pub fn hns_proof_host_and_root(host_or_url: &str) -> (r: Result<(String, String), &'static str>)
    ensures
        match r {
            Ok((host, root)) => host_and_root(host_or_url@) == Ok::<_, Seq<char>>((host@, root@)),
            Err(reason) => host_and_root(host_or_url@) == Err::<(Seq<char>, Seq<char>), _>(reason@),
        },
{
    let cs = text::chars_of(host_or_url);
    let cs = text::trimmed(&cs);
    let cs = strip_scheme(&cs);
    let authority = name::take_host(&cs);
    let authority = text::trimmed(&authority);
    let at: usize = text::find_last_char(&authority, ':');
    let end: usize = if at < authority.len() && are_digits(&authority, at + 1) {
        at
    } else {
        authority.len()
    };
    let host = text::chars_range(&authority, 0, end);
    assert(host@ =~= without_port(authority@));
    let host = text::without_end_dots(&host);
    let host = text::text_of(&host);
    let host = text::to_lower(host.as_str());
    if host.as_str().is_empty() {
        return Err("missing HNS host");
    }
    let root = name::hns_trace_root(host.as_str());
    let root = text::to_lower(root.as_str());
    if root.as_str().is_empty() {
        return Err("missing HNS root");
    }
    Ok((host, root))
}

/// What is shown where no host is named.
pub open spec fn error_text(host_or_url: Seq<char>, error: Seq<char>) -> Seq<char> {
    "{\"host\":\""@ + json::escaped(host_or_url)
        + "\",\"name\":null,\"nameHash\":null,\"hnsProof\":\"error\",\"proofStatus\":\"error\",\"secure\":null,\"exists\":null,\"treeRoot\":null,\"blockHeight\":null,\"cacheStatus\":\"invalid_input\",\"resourceValueHex\":null,\"recordTypes\":[],\"resourceRecords\":[],\"currentTip\":null,\"error\":\""@
        + json::escaped(error) + "\"}"@
}

pub fn hns_proof_details_error_json(host_or_url: &str, error: &str) -> (r: String)
    ensures
        r@ == error_text(host_or_url@, error@),
{
    let host = json::json_escape(host_or_url);
    let error = json::json_escape(error);
    let mut out = "{\"host\":\"".to_owned();
    out.append(host.as_str());
    out.append(
        "\",\"name\":null,\"nameHash\":null,\"hnsProof\":\"error\",\"proofStatus\":\"error\",\"secure\":null,\"exists\":null,\"treeRoot\":null,\"blockHeight\":null,\"cacheStatus\":\"invalid_input\",\"resourceValueHex\":null,\"recordTypes\":[],\"resourceRecords\":[],\"currentTip\":null,\"error\":\"",
    );
    out.append(error.as_str());
    out.append("\"}");
    out
}

/// The tip of the synchronised chain.
#[derive(Clone, Copy, Debug, PartialEq, Eq)]
pub struct ChainTip {
    pub height: u32,
    pub tree_root: Hash256,
}

pub struct TipView {
    pub height: u32,
    pub tree_root: Seq<u8>,
}

impl View for ChainTip {
    type V = TipView;

    open spec fn view(&self) -> TipView {
        TipView { height: self.height, tree_root: self.tree_root@ }
    }
}

pub open spec fn tip_view(tip: Option<ChainTip>) -> Option<TipView> {
    match tip {
        Some(tip) => Some(tip@),
        None => None,
    }
}

/// What is shown of the tip.
pub open spec fn tip_text(tip: Option<TipView>) -> Seq<char> {
    match tip {
        Some(tip) => "{\"height\":"@ + text::decimal(tip.height as nat) + ",\"treeRoot\":\""@
            + text::hex(tip.tree_root) + "\"}"@,
        None => "null"@,
    }
}

pub fn current_tip_json(tip: Option<ChainTip>) -> (r: String)
    ensures
        r@ == tip_text(tip_view(tip)),
{
    match tip {
        Some(tip) => {
            let mut out = "{\"height\":".to_owned();
            text::push_decimal(&mut out, tip.height as u64);
            out.append(",\"treeRoot\":\"");
            let root = tip.tree_root.to_bytes();
            let root = text::hex_text(&root);
            out.append(root.as_str());
            out.append("\"}");
            out
        },
        None => "null".to_owned(),
    }
}

/// How a value's anchor stands to the tip.
pub open spec fn cache_text(anchor: Option<AnchorView>, tip: Option<TipView>) -> Seq<char> {
    match (anchor, tip) {
        (None, _) => "no_anchor"@,
        (Some(anchor), Some(tip)) => if anchor.height == tip.height && anchor.tree_root
            == tip.tree_root {
            "anchored_to_current_tip"@
        } else {
            "anchored_to_height"@
        },
        (Some(_), None) => "anchored_no_current_tip"@,
    }
}

pub fn proof_cache_status(anchor: Option<ResourceValueAnchor>, tip: Option<ChainTip>) -> (r:
    &'static str)
    ensures
        r@ == cache_text(proven::anchor_view(anchor), tip_view(tip)),
{
    match (anchor, tip) {
        (None, _) => "no_anchor",
        (Some(anchor), Some(tip)) => if anchor.height == tip.height && anchor.tree_root.same(
            &tip.tree_root,
        ) {
            "anchored_to_current_tip"
        } else {
            "anchored_to_height"
        },
        (Some(_), None) => "anchored_no_current_tip",
    }
}

/// What is shown of a record.
pub open spec fn record_text(record: RecordView) -> Seq<char> {
    "{\"name\":\""@ + json::escaped(name::name_text(record.name)) + "\",\"type\":\""@
        + json::escaped(resolution_trace::type_text(record.record_type)) + "\",\"class\":"@
        + text::decimal(record.class as nat) + ",\"ttl\":"@ + text::decimal(record.ttl as nat)
        + ",\"rdataHex\":\""@ + text::hex(record.rdata) + "\"}"@
}

pub fn resource_record_json(record: &ResourceRecord) -> (r: String)
    ensures
        r@ == record_text(record@),
{
    let name = record.name.to_text();
    let name = json::json_escape(name.as_str());
    let kind = json::json_escape(resolution_trace::record_type_name(&record.record_type));
    let rdata = text::hex_text(&record.rdata);
    let mut out = "{\"name\":\"".to_owned();
    out.append(name.as_str());
    out.append("\",\"type\":\"");
    out.append(kind.as_str());
    out.append("\",\"class\":");
    text::push_decimal(&mut out, record.class as u64);
    out.append(",\"ttl\":");
    text::push_decimal(&mut out, record.ttl as u64);
    out.append(",\"rdataHex\":\"");
    out.append(rdata.as_str());
    out.append("\"}");
    out
}

pub open spec fn record_texts(records: Seq<RecordView>) -> Seq<Seq<char>> {
    Seq::new(records.len(), |i: int| record_text(records[i]))
}

pub open spec fn records_text(records: Seq<RecordView>) -> Seq<char> {
    "["@ + json::joined(record_texts(records), records.len()) + "]"@
}

pub fn resource_records_json(records: &Vec<ResourceRecord>) -> (r: String)
    ensures
        r@ == records_text(dns::record_views(records@)),
{
    let ghost all = dns::record_views(records@);
    let mut items: Vec<String> = Vec::new();
    let mut i: usize = 0;
    assert(text::texts(items@) =~= record_texts(all).take(0));
    while i < records.len()
        invariant
            i <= records@.len(),
            all == dns::record_views(records@),
            text::texts(items@) == record_texts(all).take(i as int),
        decreases records@.len() - i,
    {
        let ghost before = text::texts(items@);
        let item = resource_record_json(&records[i]);
        let ghost seen = item@;
        items.push(item);
        assert(text::texts(items@) =~= before.push(seen));
        assert(record_texts(all).take(i + 1) =~= before.push(record_texts(all)[i as int]));
        i = i + 1;
    }
    assert(record_texts(all).take(i as int) =~= record_texts(all));
    assert(text::texts(items@).len() == items@.len());
    let list = json::json_join(&items);
    let mut out = "[".to_owned();
    out.append(list.as_str());
    out.append("]");
    out
}

/// What is known of the proof of a name.
pub struct HnsProofDetails<'a> {
    pub host: &'a str,
    pub root_name: &'a str,
    pub name_hash: Option<NameHash>,
    pub proof_status: &'a str,
    pub cache_status: &'a str,
    pub anchor: Option<ResourceValueAnchor>,
    pub secure: Option<bool>,
    pub exists: Option<bool>,
    pub records: Vec<ResourceRecord>,
    pub raw_resource: Option<&'a Vec<u8>>,
    pub current_tip: Option<ChainTip>,
    pub error: &'a str,
}

pub struct DetailsView {
    pub host: Seq<char>,
    pub root_name: Seq<char>,
    pub name_hash: Option<Seq<u8>>,
    pub proof_status: Seq<char>,
    pub cache_status: Seq<char>,
    pub anchor: Option<AnchorView>,
    pub secure: Option<bool>,
    pub exists: Option<bool>,
    pub records: Seq<RecordView>,
    pub raw_resource: Option<Seq<u8>>,
    pub current_tip: Option<TipView>,
    pub error: Seq<char>,
}

impl<'a> View for HnsProofDetails<'a> {
    type V = DetailsView;

    open spec fn view(&self) -> DetailsView {
        DetailsView {
            host: self.host@,
            root_name: self.root_name@,
            name_hash: match self.name_hash {
                Some(name_hash) => Some(name_hash@),
                None => None,
            },
            proof_status: self.proof_status@,
            cache_status: self.cache_status@,
            anchor: proven::anchor_view(self.anchor),
            secure: self.secure,
            exists: self.exists,
            records: dns::record_views(self.records@),
            raw_resource: match self.raw_resource {
                Some(bytes) => Some(bytes@),
                None => None,
            },
            current_tip: tip_view(self.current_tip),
            error: self.error@,
        }
    }
}

/// Bytes in hexadecimal, in quotes; or null.
pub open spec fn hex_or_null(bytes: Option<Seq<u8>>) -> Seq<char> {
    match bytes {
        Some(bytes) => "\""@ + text::hex(bytes) + "\""@,
        None => "null"@,
    }
}

fn hex_json(bytes: &Vec<u8>) -> (r: String)
    ensures
        r@ == hex_or_null(Some(bytes@)),
{
    let digits = text::hex_text(bytes);
    let mut out = "\"".to_owned();
    out.append(digits.as_str());
    out.append("\"");
    out
}

/// What is shown of the proof of a name.
pub open spec fn details_text(d: DetailsView) -> Seq<char> {
    "{\"host\":\""@ + json::escaped(d.host) + "\",\"name\":\""@ + json::escaped(d.root_name)
        + "\",\"nameHash\":"@ + hex_or_null(d.name_hash) + ",\"hnsProof\":\""@ + json::escaped(
        d.proof_status,
    ) + "\",\"proofStatus\":\""@ + json::escaped(d.proof_status) + "\",\"secure\":"@
        + json::bool_or_null(d.secure) + ",\"exists\":"@ + json::bool_or_null(d.exists)
        + ",\"treeRoot\":"@ + (match d.anchor {
        Some(anchor) => hex_or_null(Some(anchor.tree_root)),
        None => "null"@,
    }) + ",\"blockHeight\":"@ + (match d.anchor {
        Some(anchor) => text::decimal(anchor.height as nat),
        None => "null"@,
    }) + ",\"cacheStatus\":\""@ + json::escaped(d.cache_status) + "\",\"resourceValueHex\":"@
        + hex_or_null(d.raw_resource) + ",\"recordTypes\":["@ + resolution_trace::types_list(
        d.records,
    ) + "],\"resourceRecords\":"@ + records_text(d.records) + ",\"currentTip\":"@ + tip_text(
        d.current_tip,
    ) + ",\"error\":"@ + (if d.error.len() == 0 {
        "null"@
    } else {
        json::quoted(d.error)
    }) + "}"@
}

#[verifier::rlimit(60)]
#[verifier::spinoff_prover]
pub fn hns_proof_details_base_json(details: &HnsProofDetails<'_>) -> (r: String)
    ensures
        r@ == details_text(details@),
{
    let host = json::json_escape(details.host);
    let root_name = json::json_escape(details.root_name);
    let name_hash = match details.name_hash {
        Some(name_hash) => {
            let bytes = name_hash.as_hash().to_bytes();
            hex_json(&bytes)
        },
        None => "null".to_owned(),
    };
    let status = json::json_escape(details.proof_status);
    let tree_root = match details.anchor {
        Some(anchor) => {
            let bytes = anchor.tree_root.to_bytes();
            hex_json(&bytes)
        },
        None => "null".to_owned(),
    };
    let height = match details.anchor {
        Some(anchor) => text::decimal_text(anchor.height as u64),
        None => "null".to_owned(),
    };
    let cache = json::json_escape(details.cache_status);
    let raw = match details.raw_resource {
        Some(bytes) => hex_json(bytes),
        None => "null".to_owned(),
    };
    let kinds = resolution_trace::record_types_list(&details.records);
    let records = resource_records_json(&details.records);
    let tip = current_tip_json(details.current_tip);
    let error = if details.error.is_empty() {
        "null".to_owned()
    } else {
        json::json_string(details.error)
    };
    let mut out = "{\"host\":\"".to_owned();
    out.append(host.as_str());
    out.append("\",\"name\":\"");
    out.append(root_name.as_str());
    out.append("\",\"nameHash\":");
    out.append(name_hash.as_str());
    out.append(",\"hnsProof\":\"");
    out.append(status.as_str());
    out.append("\",\"proofStatus\":\"");
    out.append(status.as_str());
    out.append("\",\"secure\":");
    out.append(json::json_bool_or_null(details.secure));
    out.append(",\"exists\":");
    out.append(json::json_bool_or_null(details.exists));
    out.append(",\"treeRoot\":");
    out.append(tree_root.as_str());
    out.append(",\"blockHeight\":");
    out.append(height.as_str());
    out.append(",\"cacheStatus\":\"");
    out.append(cache.as_str());
    out.append("\",\"resourceValueHex\":");
    out.append(raw.as_str());
    out.append(",\"recordTypes\":[");
    out.append(kinds.as_str());
    out.append("],\"resourceRecords\":");
    out.append(records.as_str());
    out.append(",\"currentTip\":");
    out.append(tip.as_str());
    out.append(",\"error\":");
    out.append(error.as_str());
    out.append("}");
    out
}

/// The table of verified values as it was found.
#[derive(Debug, PartialEq, Eq)]
pub enum ResourceCache {
    Missing,
    OpenFailed(String),
    /// The row of the name that is asked for could not be read.
    ReadFailed(ResolverError),
    Open(SqliteResourceValueProvider),
}

pub enum CacheView {
    Missing,
    OpenFailed(Seq<char>),
    ReadFailed(Seq<char>),
    Open(Seq<RowView>),
}

impl View for ResourceCache {
    type V = CacheView;

    open spec fn view(&self) -> CacheView {
        match self {
            ResourceCache::Missing => CacheView::Missing,
            ResourceCache::OpenFailed(reason) => CacheView::OpenFailed(reason@),
            ResourceCache::ReadFailed(error) => CacheView::ReadFailed(error.text()),
            ResourceCache::Open(values) => CacheView::Open(values@),
        }
    }
}

/// Details of a name of which no value is known.
pub open spec fn bare_details(
    host: Seq<char>,
    root_name: Seq<char>,
    name_hash: Option<Seq<u8>>,
    proof_status: Seq<char>,
    cache_status: Seq<char>,
    tip: Option<TipView>,
    error: Seq<char>,
) -> DetailsView {
    DetailsView {
        host,
        root_name,
        name_hash,
        proof_status,
        cache_status,
        anchor: None,
        secure: None,
        exists: None,
        records: Seq::empty(),
        raw_resource: None,
        current_tip: tip,
        error,
    }
}

/// Details of a name whose value is known.
pub open spec fn value_details(
    host: Seq<char>,
    root_name: Seq<char>,
    name_hash: Seq<u8>,
    value: ValueView,
    tip: Option<TipView>,
) -> DetailsView {
    let (proof_status, records, error) = match proven::proven_from(value) {
        Err(error) => (
            "invalid_resource"@,
            Seq::<RecordView>::empty(),
            "decode resource records: "@ + error.text(),
        ),
        Ok(proven) => (
            if !value.secure {
                "failed"@
            } else if value.value is Some {
                "verified"@
            } else {
                "not_found"@
            },
            proven.records,
            ""@,
        ),
    };
    DetailsView {
        host,
        root_name,
        name_hash: Some(name_hash),
        proof_status,
        cache_status: cache_text(value.anchor, tip),
        anchor: value.anchor,
        secure: Some(value.secure),
        exists: Some(value.value is Some),
        records,
        raw_resource: match value.value {
            Some(payload) => Some(payload.bytes),
            None => None,
        },
        current_tip: tip,
        error,
    }
}

/// What is known of the proof of a root, from the table and the chain.
pub open spec fn details_of(
    host: Seq<char>,
    root: Seq<char>,
    cache: CacheView,
    tip: Option<TipView>,
) -> DetailsView {
    match name::hns_label_error(root) {
        Some(error) => bare_details(
            host,
            root,
            None,
            "failed"@,
            "invalid_name"@,
            None,
            "invalid HNS name: "@ + error.text(),
        ),
        None => {
            let name_hash = hash::hash_of_name(root);
            match cache {
                CacheView::Missing => bare_details(
                    host,
                    root,
                    Some(name_hash),
                    "unavailable"@,
                    "resource_cache_missing"@,
                    tip,
                    "resource cache is not initialized"@,
                ),
                CacheView::OpenFailed(reason) => bare_details(
                    host,
                    root,
                    Some(name_hash),
                    "error"@,
                    "resource_cache_open_failed"@,
                    tip,
                    "open resource cache: "@ + reason,
                ),
                CacheView::ReadFailed(reason) => bare_details(
                    host,
                    root,
                    Some(name_hash),
                    "error"@,
                    "proof_read_failed"@,
                    tip,
                    reason,
                ),
                CacheView::Open(rows) => match store::stored_value(rows, root, name_hash) {
                    Ok(value) => value_details(host, root, name_hash, value, tip),
                    Err(ResolverError::ProofUnavailable) => bare_details(
                        host,
                        root,
                        Some(name_hash),
                        "unavailable"@,
                        "not_cached"@,
                        tip,
                        "no cached proof is available for this HNS root"@,
                    ),
                    Err(error) => bare_details(
                        host,
                        root,
                        Some(name_hash),
                        "error"@,
                        "proof_read_failed"@,
                        tip,
                        error.text(),
                    ),
                },
            }
        },
    }
}

/// What is shown for a host or an address.
pub open spec fn shown_details(host_or_url: Seq<char>, cache: CacheView, tip: Option<TipView>) -> Seq<
    char,
> {
    match host_and_root(host_or_url) {
        Err(reason) => error_text(host_or_url, reason),
        Ok((host, root)) => details_text(details_of(host, root, cache, tip)),
    }
}

fn bare_json(
    host: &str,
    root_name: &str,
    name_hash: Option<NameHash>,
    proof_status: &str,
    cache_status: &str,
    tip: Option<ChainTip>,
    error: &str,
) -> (r: String)
    ensures
        r@ == details_text(
            bare_details(
                host@,
                root_name@,
                match name_hash {
                    Some(name_hash) => Some(name_hash@),
                    None => None,
                },
                proof_status@,
                cache_status@,
                tip_view(tip),
                error@,
            ),
        ),
{
    let details = HnsProofDetails {
        host,
        root_name,
        name_hash,
        proof_status,
        cache_status,
        anchor: None,
        secure: None,
        exists: None,
        records: Vec::new(),
        raw_resource: None,
        current_tip: tip,
        error,
    };
    assert(details@.records =~= Seq::empty());
    hns_proof_details_base_json(&details)
}

fn value_json(
    host: &str,
    root_name: &str,
    name_hash: NameHash,
    value: &VerifiedResourceValue,
    tip: Option<ChainTip>,
) -> (r: String)
    ensures
        r@ == details_text(value_details(host@, root_name@, name_hash@, value@, tip_view(tip))),
{
    let cache_status = proof_cache_status(value.anchor, tip);
    let raw_resource = match &value.value {
        Some(payload) => Some(&payload.bytes),
        None => None,
    };
    let exists = value.value.is_some();
    match ProvenNameRecords::from_verified_resource_value(value.copy()) {
        Ok(proven) => {
            let proof_status = if !value.secure {
                "failed"
            } else if exists {
                "verified"
            } else {
                "not_found"
            };
            let details = HnsProofDetails {
                host,
                root_name,
                name_hash: Some(name_hash),
                proof_status,
                cache_status,
                anchor: value.anchor,
                secure: Some(value.secure),
                exists: Some(exists),
                records: proven.records,
                raw_resource,
                current_tip: tip,
                error: "",
            };
            hns_proof_details_base_json(&details)
        },
        Err(error) => {
            let reason = error.message();
            let mut text = "decode resource records: ".to_owned();
            text.append(reason.as_str());
            let details = HnsProofDetails {
                host,
                root_name,
                name_hash: Some(name_hash),
                proof_status: "invalid_resource",
                cache_status,
                anchor: value.anchor,
                secure: Some(value.secure),
                exists: Some(exists),
                records: Vec::new(),
                raw_resource,
                current_tip: tip,
                error: text.as_str(),
            };
            assert(details@.records =~= Seq::empty());
            hns_proof_details_base_json(&details)
        },
    }
}

/// What is known of the proof of a host's root, from the table of verified
/// values and the tip of the chain.
pub fn hns_proof_details(host_or_url: &str, cache: ResourceCache, tip: Option<ChainTip>) -> (r:
    String)
    ensures
        r@ == shown_details(host_or_url@, cache@, tip_view(tip)),
{
    let (host, root_name) = match hns_proof_host_and_root(host_or_url) {
        Ok(value) => value,
        Err(reason) => {
            return hns_proof_details_error_json(host_or_url, reason);
        },
    };
    let name_hash = match NameHash::from_name(root_name.as_str()) {
        Ok(name_hash) => name_hash,
        Err(error) => {
            let reason = error.message();
            let mut text = "invalid HNS name: ".to_owned();
            text.append(reason.as_str());
            return bare_json(
                host.as_str(),
                root_name.as_str(),
                None,
                "failed",
                "invalid_name",
                None,
                text.as_str(),
            );
        },
    };
    let mut values = match cache {
        ResourceCache::Open(values) => values,
        ResourceCache::Missing => {
            return bare_json(
                host.as_str(),
                root_name.as_str(),
                Some(name_hash),
                "unavailable",
                "resource_cache_missing",
                tip,
                "resource cache is not initialized",
            );
        },
        ResourceCache::OpenFailed(reason) => {
            let mut text = "open resource cache: ".to_owned();
            text.append(reason.as_str());
            return bare_json(
                host.as_str(),
                root_name.as_str(),
                Some(name_hash),
                "error",
                "resource_cache_open_failed",
                tip,
                text.as_str(),
            );
        },
        ResourceCache::ReadFailed(error) => {
            let reason = error.message();
            return bare_json(
                host.as_str(),
                root_name.as_str(),
                Some(name_hash),
                "error",
                "proof_read_failed",
                tip,
                reason.as_str(),
            );
        },
    };
    match values.prove_resource_value(root_name.as_str(), name_hash) {
        Ok(value) => value_json(host.as_str(), root_name.as_str(), name_hash, &value, tip),
        Err(ResolverError::ProofUnavailable) => bare_json(
            host.as_str(),
            root_name.as_str(),
            Some(name_hash),
            "unavailable",
            "not_cached",
            tip,
            "no cached proof is available for this HNS root",
        ),
        Err(error) => {
            let reason = error.message();
            bare_json(
                host.as_str(),
                root_name.as_str(),
                Some(name_hash),
                "error",
                "proof_read_failed",
                tip,
                reason.as_str(),
            )
        },
    }
}

/// A proof is shown as verified only where a secure value is in the table.
pub proof fn law_verified_details_rest_on_a_value(
    host: Seq<char>,
    root: Seq<char>,
    cache: CacheView,
    tip: Option<TipView>,
)
    requires
        details_of(host, root, cache, tip).proof_status == "verified"@,
    ensures
        cache is Open,
        store::stored_value(cache->Open_0, root, hash::hash_of_name(root)) is Ok,
        store::stored_value(cache->Open_0, root, hash::hash_of_name(root))->Ok_0.secure,
        store::stored_value(cache->Open_0, root, hash::hash_of_name(root))->Ok_0.value is Some,
{
    reveal_strlit("verified");
    reveal_strlit("failed");
    reveal_strlit("unavailable");
    reveal_strlit("error");
    reveal_strlit("not_found");
    reveal_strlit("invalid_resource");
    assert("failed"@.len() == 6 && "verified"@.len() == 8 && "unavailable"@.len() == 11);
    assert("error"@.len() == 5 && "not_found"@.len() == 9 && "invalid_resource"@.len() == 16);
}

/// Every part of the details is told under its own name.
#[verifier::rlimit(60)]
pub proof fn law_details_tell_each_of_their_parts(d: DetailsView)
    ensures
        text::contains_text(details_text(d), "{\"host\":\""@ + json::escaped(d.host)),
        text::contains_text(details_text(d), "\",\"name\":\""@ + json::escaped(d.root_name)),
        text::contains_text(details_text(d), "\",\"nameHash\":"@ + hex_or_null(d.name_hash)),
        text::contains_text(details_text(d), ",\"hnsProof\":\""@ + json::escaped(d.proof_status)),
        text::contains_text(
            details_text(d),
            "\",\"proofStatus\":\""@ + json::escaped(d.proof_status),
        ),
        text::contains_text(details_text(d), "\",\"secure\":"@ + json::bool_or_null(d.secure)),
        text::contains_text(details_text(d), ",\"exists\":"@ + json::bool_or_null(d.exists)),
        text::contains_text(
            details_text(d),
            ",\"treeRoot\":"@ + (match d.anchor {
                Some(anchor) => hex_or_null(Some(anchor.tree_root)),
                None => "null"@,
            }),
        ),
        text::contains_text(
            details_text(d),
            ",\"blockHeight\":"@ + (match d.anchor {
                Some(anchor) => text::decimal(anchor.height as nat),
                None => "null"@,
            }),
        ),
        text::contains_text(
            details_text(d),
            ",\"cacheStatus\":\""@ + json::escaped(d.cache_status),
        ),
        text::contains_text(
            details_text(d),
            "\",\"resourceValueHex\":"@ + hex_or_null(d.raw_resource),
        ),
        text::contains_text(
            details_text(d),
            ",\"recordTypes\":["@ + resolution_trace::types_list(d.records),
        ),
        text::contains_text(details_text(d), "],\"resourceRecords\":"@ + records_text(d.records)),
        text::contains_text(details_text(d), ",\"currentTip\":"@ + tip_text(d.current_tip)),
        text::contains_text(
            details_text(d),
            ",\"error\":"@ + (if d.error.len() == 0 { "null"@ } else { json::quoted(d.error) }),
        ),
{
    let pieces = seq![
        "{\"host\":\""@,
        json::escaped(d.host),
        "\",\"name\":\""@,
        json::escaped(d.root_name),
        "\",\"nameHash\":"@,
        hex_or_null(d.name_hash),
        ",\"hnsProof\":\""@,
        json::escaped(d.proof_status),
        "\",\"proofStatus\":\""@,
        json::escaped(d.proof_status),
        "\",\"secure\":"@,
        json::bool_or_null(d.secure),
        ",\"exists\":"@,
        json::bool_or_null(d.exists),
        ",\"treeRoot\":"@,
        (match d.anchor { Some(anchor) => hex_or_null(Some(anchor.tree_root)), None => "null"@, }),
        ",\"blockHeight\":"@,
        (match d.anchor { Some(anchor) => text::decimal(anchor.height as nat), None => "null"@, }),
        ",\"cacheStatus\":\""@,
        json::escaped(d.cache_status),
        "\",\"resourceValueHex\":"@,
        hex_or_null(d.raw_resource),
        ",\"recordTypes\":["@,
        resolution_trace::types_list(d.records),
        "],\"resourceRecords\":"@,
        records_text(d.records),
        ",\"currentTip\":"@,
        tip_text(d.current_tip),
        ",\"error\":"@,
        (if d.error.len() == 0 { "null"@ } else { json::quoted(d.error) }),
        "}"@,
    ];
    reveal_with_fuel(json::chained, 32);
    assert(details_text(d) == json::chained(pieces, 31));
    json::lemma_chain_holds(pieces, 31, 0);
    json::lemma_chain_holds(pieces, 31, 2);
    json::lemma_chain_holds(pieces, 31, 4);
    json::lemma_chain_holds(pieces, 31, 6);
    json::lemma_chain_holds(pieces, 31, 8);
    json::lemma_chain_holds(pieces, 31, 10);
    json::lemma_chain_holds(pieces, 31, 12);
    json::lemma_chain_holds(pieces, 31, 14);
    json::lemma_chain_holds(pieces, 31, 16);
    json::lemma_chain_holds(pieces, 31, 18);
    json::lemma_chain_holds(pieces, 31, 20);
    json::lemma_chain_holds(pieces, 31, 22);
    json::lemma_chain_holds(pieces, 31, 24);
    json::lemma_chain_holds(pieces, 31, 26);
    json::lemma_chain_holds(pieces, 31, 28);
}

/// Every part of a record is told under its own name.
#[verifier::rlimit(60)]
pub proof fn law_record_tells_each_of_its_parts(record: RecordView)
    ensures
        text::contains_text(
            record_text(record),
            "{\"name\":\""@ + json::escaped(name::name_text(record.name)),
        ),
        text::contains_text(
            record_text(record),
            "\",\"type\":\""@ + json::escaped(resolution_trace::type_text(record.record_type)),
        ),
        text::contains_text(
            record_text(record),
            "\",\"class\":"@ + text::decimal(record.class as nat),
        ),
        text::contains_text(record_text(record), ",\"ttl\":"@ + text::decimal(record.ttl as nat)),
        text::contains_text(record_text(record), ",\"rdataHex\":\""@ + text::hex(record.rdata)),
{
    let pieces = seq![
        "{\"name\":\""@,
        json::escaped(name::name_text(record.name)),
        "\",\"type\":\""@,
        json::escaped(resolution_trace::type_text(record.record_type)),
        "\",\"class\":"@,
        text::decimal(record.class as nat),
        ",\"ttl\":"@,
        text::decimal(record.ttl as nat),
        ",\"rdataHex\":\""@,
        text::hex(record.rdata),
        "\"}"@,
    ];
    reveal_with_fuel(json::chained, 12);
    assert(record_text(record) == json::chained(pieces, 11));
    json::lemma_chain_holds(pieces, 11, 0);
    json::lemma_chain_holds(pieces, 11, 2);
    json::lemma_chain_holds(pieces, 11, 4);
    json::lemma_chain_holds(pieces, 11, 6);
    json::lemma_chain_holds(pieces, 11, 8);
}

/// A secure value is shown with the records that it holds and the block that it was
/// proven at: as verified, or as not found where the name has no value.
pub proof fn law_secure_value_is_shown(
    host: Seq<char>,
    root_name: Seq<char>,
    name_hash: Seq<u8>,
    value: ValueView,
    tip: Option<TipView>,
)
    requires
        value.secure,
        name::parse_name(value.root_name) is Some,
        value.value matches Some(payload) ==> payload.decoded is Ok,
    ensures
        ({
            let shown = value_details(host, root_name, name_hash, value, tip);
            &&& shown.host == host
            &&& shown.root_name == root_name
            &&& shown.name_hash == Some(name_hash)
            &&& shown.secure == Some(true)
            &&& shown.exists == Some(value.value is Some)
            &&& shown.anchor == value.anchor
            &&& shown.current_tip == tip
            &&& value.value matches Some(payload) ==> shown.records == payload.decoded->Ok_0
                && shown.proof_status == "verified"@
            &&& value.value is None ==> shown.records.len() == 0 && shown.proof_status
                == "not_found"@
        }),
{
}

/// What is said of a value's block: whether it is the tip, another block, or
/// neither is known.
pub proof fn law_block_of_a_value_is_told(anchor: Option<AnchorView>, tip: Option<TipView>)
    ensures
        cache_text(anchor, tip) == "anchored_to_current_tip"@ <==> anchor is Some && tip is Some
            && anchor->0.height == tip->0.height && anchor->0.tree_root == tip->0.tree_root,
        cache_text(anchor, tip) == "no_anchor"@ <==> anchor is None,
        cache_text(anchor, tip) == "anchored_no_current_tip"@ <==> anchor is Some && tip is None,
{
    reveal_strlit("anchored_to_current_tip");
    reveal_strlit("anchored_to_height");
    reveal_strlit("no_anchor");
    reveal_strlit("anchored_no_current_tip");
    assert("anchored_to_current_tip"@.len() == 23 && "anchored_to_height"@.len() == 18
        && "no_anchor"@.len() == 9);
    assert("anchored_to_current_tip"@[9] != "anchored_no_current_tip"@[9]);
}

/// The host is found in an address, whether or not it comes with a scheme, a port
/// or a path.
pub proof fn law_host_is_found_in_an_address(host: Seq<char>, port: u16, path: Seq<char>)
    requires
        host.len() > 0,
        text::lower(host) == host,
        host.last() != '.',
        forall|i: int|
            0 <= i < host.len() ==> !text::is_space(#[trigger] host[i]) && !name::ends_host(host[i])
                && host[i] != ':',
        path.len() > 0 ==> name::ends_host(path[0]) && !text::is_space(path.last()),
    ensures
        named_host("https://"@ + host + path) == host,
        named_host("http://"@ + host + path) == host,
        named_host("https://"@ + host + ":"@ + text::decimal(port as nat) + path) == host,
        named_host(host + ":"@ + text::decimal(port as nat) + path) == host,
        named_host(host + path) == host,
{
    reveal_strlit("https://");
    reveal_strlit("http://");
    reveal_strlit(":");
    let digits = text::decimal(port as nat);
    let with_port = host + ":"@ + digits;
    text::lemma_decimal_digits(port as nat);
    assert(!host.contains(':'));
    assert(with_port[0] == host[0]);
    assert(with_port.last() == digits.last());
    text::lemma_find_last_is(host, ':', host.len() as int);
    assert forall|i: int| host.len() < i < with_port.len() implies with_port[i] != ':' by {
        assert(with_port[i] == digits[i - host.len() - 1]);
    }
    text::lemma_find_last_is(with_port, ':', host.len() as int);
    assert(with_port.skip(host.len() as int + 1) =~= digits);
    assert(with_port.take(host.len() as int) =~= host);
    assert(all_digits(digits)) by {
        assert forall|i: int| 0 <= i < digits.len() implies text::is_digit(
            #[trigger] digits[i],
        ) by {
        }
    }
    assert(without_port(host) == host);
    assert(without_port(with_port) == host);
    assert forall|i: int| 0 <= i < with_port.len() implies !name::ends_host(
        #[trigger] with_port[i],
    ) by {
        if i < host.len() {
            assert(with_port[i] == host[i]);
        } else if i > host.len() {
            assert(with_port[i] == digits[i - host.len() - 1]);
        }
    }
    lemma_named_host(host, host, path);
    lemma_named_host(with_port, host, path);
    assert("https://"@ + host + path =~= "https://"@ + (host + path));
    assert("http://"@ + host + path =~= "http://"@ + (host + path));
    assert("https://"@ + host + ":"@ + digits + path =~= "https://"@ + (with_port + path));
}

proof fn lemma_named_host(authority: Seq<char>, host: Seq<char>, path: Seq<char>)
    requires
        authority.len() > 0,
        !text::is_space(authority[0]),
        !text::is_space(authority.last()),
        authority.last() != ':',
        forall|i: int| 0 <= i < authority.len() ==> !name::ends_host(#[trigger] authority[i]),
        path.len() > 0 ==> name::ends_host(path[0]) && !text::is_space(path.last()),
        without_port(authority) == host,
        host.len() > 0,
        host.last() != '.',
        text::lower(host) == host,
    ensures
        named_host(authority + path) == host,
        named_host("https://"@ + (authority + path)) == host,
        named_host("http://"@ + (authority + path)) == host,
{
    reveal_strlit("https://");
    reveal_strlit("http://");
    let plain = authority + path;
    let secure = "https://"@ + plain;
    let clear = "http://"@ + plain;
    assert(plain.last() == (if path.len() > 0 {
        path.last()
    } else {
        authority.last()
    }));
    assert(secure.last() == plain.last() && clear.last() == plain.last());
    text::law_trimmed_text_stays(plain);
    text::law_trimmed_text_stays(secure);
    text::law_trimmed_text_stays(clear);
    text::law_trimmed_text_stays(authority);
    name::lemma_host_prefix(authority, path);
    assert(secure.subrange(0, 8) =~= "https://"@);
    assert(secure.skip(8) =~= plain);
    assert(clear.subrange(0, 7) =~= "http://"@);
    assert(clear.skip(7) =~= plain);
    assert(!text::occurs_at(clear, "https://"@, 0)) by {
        if text::occurs_at(clear, "https://"@, 0) {
            assert(clear.subrange(0, 8)[4] == "https://"@[4]);
        }
    }
    assert(!text::occurs_at(plain, "https://"@, 0)) by {
        if text::occurs_at(plain, "https://"@, 0) {
            lemma_no_scheme_in_front(authority, path, "https://"@, 5);
        }
    }
    assert(!text::occurs_at(plain, "http://"@, 0)) by {
        if text::occurs_at(plain, "http://"@, 0) {
            lemma_no_scheme_in_front(authority, path, "http://"@, 4);
        }
    }
}

proof fn lemma_no_scheme_in_front(
    authority: Seq<char>,
    path: Seq<char>,
    scheme: Seq<char>,
    colon: int,
)
    requires
        authority.len() > 0,
        authority.last() != ':',
        forall|i: int| 0 <= i < authority.len() ==> !name::ends_host(#[trigger] authority[i]),
        path.len() > 0 ==> name::ends_host(path[0]),
        scheme.len() == colon + 3,
        0 <= colon,
        scheme[colon] == ':',
        scheme[colon + 1] == '/',
        forall|i: int| 0 <= i <= colon ==> !name::ends_host(#[trigger] scheme[i]),
    ensures
        !text::occurs_at(authority + path, scheme, 0),
{
    let plain = authority + path;
    if text::occurs_at(plain, scheme, 0) {
        assert forall|i: int| 0 <= i < scheme.len() implies plain[i] == scheme[i] by {
            assert(plain.subrange(0, scheme.len() as int)[i] == plain[i]);
        }
        let n = authority.len() as int;
        if n > colon + 1 {
            assert(plain[colon + 1] == authority[colon + 1]);
        } else if n == colon + 1 {
            assert(plain[colon] == authority[colon]);
        } else {
            assert(plain[n] == path[0]);
            assert(plain[n] == scheme[n]);
        }
    }
}

} // verus!
