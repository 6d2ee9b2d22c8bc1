//! Resource values whose Handshake proof has been verified, and the records
//! that they hold.
use crate::dns;
use crate::dns::{RecordView, ResourceRecord};
use crate::error::ResolverError;
use crate::hash::{Hash256, NameHash};
use crate::name;
use crate::name::DnsName;
use crate::text;
use vstd::prelude::*;
use vstd::string::*;

verus! {

/// A resource value as it is stored, and the records that it decodes to under
/// its root, or the reason why it does not decode.
#[derive(Debug, PartialEq, Eq)]
pub struct ResourcePayload {
    pub bytes: Vec<u8>,
    pub decoded: Result<Vec<ResourceRecord>, String>,
}

pub struct PayloadView {
    pub bytes: Seq<u8>,
    pub decoded: Result<Seq<RecordView>, String>,
}

impl View for ResourcePayload {
    type V = PayloadView;

    open spec fn view(&self) -> PayloadView {
        PayloadView {
            bytes: self.bytes@,
            decoded: match self.decoded {
                Ok(records) => Ok(dns::record_views(records@)),
                Err(reason) => Err(reason),
            },
        }
    }
}

impl ResourcePayload {
    pub fn copy(&self) -> (r: ResourcePayload)
        ensures
            r@ == self@,
    {
        ResourcePayload {
            bytes: dns::copy_bytes(&self.bytes),
            decoded: match &self.decoded {
                Ok(records) => Ok(dns::copy_records(records)),
                Err(reason) => Err(reason.clone()),
            },
        }
    }
}

/// The block whose tree root a value was proven against.
#[derive(Clone, Copy, Debug, PartialEq, Eq)]
pub struct ResourceValueAnchor {
    pub tree_root: Hash256,
    pub height: u32,
}

pub struct AnchorView {
    pub tree_root: Seq<u8>,
    pub height: u32,
}

impl View for ResourceValueAnchor {
    type V = AnchorView;

    open spec fn view(&self) -> AnchorView {
        AnchorView { tree_root: self.tree_root@, height: self.height }
    }
}

impl ResourceValueAnchor {
    pub fn same(&self, other: &ResourceValueAnchor) -> (r: bool)
        ensures
            r == (self@ == other@),
    {
        self.height == other.height && self.tree_root.same(&other.tree_root)
    }
}

pub open spec fn anchor_view(anchor: Option<ResourceValueAnchor>) -> Option<AnchorView> {
    match anchor {
        Some(a) => Some(a@),
        None => None,
    }
}

/// What a verified proof says of a name: its value, or that it has none.
#[derive(Debug, PartialEq, Eq)]
pub struct VerifiedResourceValue {
    pub root_name: String,
    pub name_hash: NameHash,
    pub value: Option<ResourcePayload>,
    pub secure: bool,
    pub anchor: Option<ResourceValueAnchor>,
}

pub struct ValueView {
    pub root_name: Seq<char>,
    pub name_hash: Seq<u8>,
    pub value: Option<PayloadView>,
    pub secure: bool,
    pub anchor: Option<AnchorView>,
}

impl View for VerifiedResourceValue {
    type V = ValueView;

    open spec fn view(&self) -> ValueView {
        ValueView {
            root_name: self.root_name@,
            name_hash: self.name_hash@,
            value: match self.value {
                Some(payload) => Some(payload@),
                None => None,
            },
            secure: self.secure,
            anchor: anchor_view(self.anchor),
        }
    }
}

impl VerifiedResourceValue {
    pub fn inclusion(root_name: String, name_hash: NameHash, value: ResourcePayload) -> (r: Self)
        ensures
            r@ == (ValueView {
                root_name: root_name@,
                name_hash: name_hash@,
                value: Some(value@),
                secure: true,
                anchor: None,
            }),
    {
        VerifiedResourceValue {
            root_name,
            name_hash,
            value: Some(value),
            secure: true,
            anchor: None,
        }
    }

    pub fn non_inclusion(root_name: String, name_hash: NameHash) -> (r: Self)
        ensures
            r@ == (ValueView {
                root_name: root_name@,
                name_hash: name_hash@,
                value: None,
                secure: true,
                anchor: None,
            }),
    {
        VerifiedResourceValue { root_name, name_hash, value: None, secure: true, anchor: None }
    }

    pub fn with_anchor(self, tree_root: Hash256, height: u32) -> (r: Self)
        ensures
            r@ == (ValueView {
                anchor: Some(AnchorView { tree_root: tree_root@, height }),
                ..self@
            }),
    {
        VerifiedResourceValue {
            root_name: self.root_name,
            name_hash: self.name_hash,
            value: self.value,
            secure: self.secure,
            anchor: Some(ResourceValueAnchor { tree_root, height }),
        }
    }

    pub fn copy(&self) -> (r: VerifiedResourceValue)
        ensures
            r@ == self@,
    {
        VerifiedResourceValue {
            root_name: self.root_name.clone(),
            name_hash: self.name_hash,
            value: match &self.value {
                Some(payload) => Some(payload.copy()),
                None => None,
            },
            secure: self.secure,
            anchor: self.anchor,
        }
    }
}

/// The records that a name is proven to have.
#[derive(Clone, Debug, PartialEq, Eq)]
pub struct ProvenNameRecords {
    pub root_name: String,
    pub name_hash: NameHash,
    pub records: Vec<ResourceRecord>,
    pub secure: bool,
    pub exists: bool,
}

pub struct ProvenView {
    pub root_name: Seq<char>,
    pub name_hash: Seq<u8>,
    pub records: Seq<RecordView>,
    pub secure: bool,
    pub exists: bool,
}

impl View for ProvenNameRecords {
    type V = ProvenView;

    open spec fn view(&self) -> ProvenView {
        ProvenView {
            root_name: self.root_name@,
            name_hash: self.name_hash@,
            records: dns::record_views(self.records@),
            secure: self.secure,
            exists: self.exists,
        }
    }
}

pub open spec fn proven_reply(r: Result<ProvenNameRecords, ResolverError>) -> Result<
    ProvenView,
    ResolverError,
> {
    match r {
        Ok(proven) => Ok(proven@),
        Err(error) => Err(error),
    }
}

pub open spec fn value_reply(r: Result<VerifiedResourceValue, ResolverError>) -> Result<
    ValueView,
    ResolverError,
> {
    match r {
        Ok(value) => Ok(value@),
        Err(error) => Err(error),
    }
}

/// The records of a value, where its root is a name and it decodes.
pub open spec fn records_of_payload(root_name: Seq<char>, payload: PayloadView) -> Result<
    Seq<RecordView>,
    ResolverError,
> {
    match name::parse_name(root_name) {
        None => Err(ResolverError::UnsupportedBackend),
        Some(_) => match payload.decoded {
            Ok(records) => Ok(records),
            Err(reason) => Err(ResolverError::InvalidResource(reason)),
        },
    }
}

/// The proven records of a verified value; a value that says the name does not
/// exist has none.
pub open spec fn proven_from(value: ValueView) -> Result<ProvenView, ResolverError> {
    match value.value {
        None => Ok(
            ProvenView {
                root_name: value.root_name,
                name_hash: value.name_hash,
                records: Seq::empty(),
                secure: value.secure,
                exists: false,
            },
        ),
        Some(payload) => match records_of_payload(value.root_name, payload) {
            Ok(records) => Ok(
                ProvenView {
                    root_name: value.root_name,
                    name_hash: value.name_hash,
                    records,
                    secure: value.secure,
                    exists: true,
                },
            ),
            Err(error) => Err(error),
        },
    }
}

fn payload_records(root_name: &str, payload: ResourcePayload) -> (r: Result<
    Vec<ResourceRecord>,
    ResolverError,
>)
    ensures
        match r {
            Ok(records) => records_of_payload(root_name@, payload@) == Ok::<_, ResolverError>(
                dns::record_views(records@),
            ),
            Err(error) => records_of_payload(root_name@, payload@) == Err::<Seq<RecordView>, _>(
                error,
            ),
        },
{
    match DnsName::from_ascii(root_name) {
        None => Err(ResolverError::UnsupportedBackend),
        Some(_) => match payload.decoded {
            Ok(records) => Ok(records),
            Err(reason) => Err(ResolverError::InvalidResource(reason)),
        },
    }
}

impl ProvenNameRecords {
    pub fn from_resource_value(
        root_name: String,
        name_hash: NameHash,
        value: ResourcePayload,
    ) -> (r: Result<Self, ResolverError>)
        ensures
            proven_reply(r) == proven_from(
                ValueView {
                    root_name: root_name@,
                    name_hash: name_hash@,
                    value: Some(value@),
                    secure: true,
                    anchor: None,
                },
            ),
    {
        match payload_records(&root_name, value) {
            Ok(records) => Ok(
                ProvenNameRecords { root_name, name_hash, records, secure: true, exists: true },
            ),
            Err(error) => Err(error),
        }
    }

    pub fn from_verified_resource_value(verified: VerifiedResourceValue) -> (r: Result<
        Self,
        ResolverError,
    >)
        ensures
            proven_reply(r) == proven_from(verified@),
    {
        match verified.value {
            None => {
                let records: Vec<ResourceRecord> = Vec::new();
                assert(dns::record_views(records@) =~= Seq::empty());
                Ok(
                    ProvenNameRecords {
                        root_name: verified.root_name,
                        name_hash: verified.name_hash,
                        records,
                        secure: verified.secure,
                        exists: false,
                    },
                )
            },
            Some(payload) => match payload_records(&verified.root_name, payload) {
                Ok(records) => Ok(
                    ProvenNameRecords {
                        root_name: verified.root_name,
                        name_hash: verified.name_hash,
                        records,
                        secure: verified.secure,
                        exists: true,
                    },
                ),
                Err(error) => Err(error),
            },
        }
    }
}

/// Proves which records a name has.
pub trait HnsProofProvider: Sized {
    /// Whether a provider in state `pre` may reply `reply` for the name and be
    /// left in state `post`.
    /// By default anything may.
    open spec fn proves(
        pre: Self,
        root_name: Seq<char>,
        name_hash: Seq<u8>,
        reply: Result<ProvenView, ResolverError>,
        post: Self,
    ) -> bool {
        true
    }

    fn prove_name(&mut self, root_name: &str, name_hash: NameHash) -> (r: Result<
        ProvenNameRecords,
        ResolverError,
    >)
        ensures
            Self::proves(*old(self), root_name@, name_hash@, proven_reply(r), *final(self)),
    ;
}

/// Proves which resource value a name has.
pub trait HnsResourceValueProvider: Sized {
    /// Whether a provider in state `pre` may reply `reply` for the name and be
    /// left in state `post`.
    /// By default anything may.
    open spec fn proves_value(
        pre: Self,
        root_name: Seq<char>,
        name_hash: Seq<u8>,
        reply: Result<ValueView, ResolverError>,
        post: Self,
    ) -> bool {
        true
    }

    fn prove_resource_value(&mut self, root_name: &str, name_hash: NameHash) -> (r: Result<
        VerifiedResourceValue,
        ResolverError,
    >)
        ensures
            Self::proves_value(*old(self), root_name@, name_hash@, value_reply(r), *final(self)),
    ;
}

/// Turns proven resource values into proven records.
pub struct ResourceValueProofProvider<P> {
    pub value_provider: P,
}

impl<P> ResourceValueProofProvider<P> {
    pub fn new(value_provider: P) -> (r: Self)
        ensures
            r.value_provider == value_provider,
    {
        ResourceValueProofProvider { value_provider }
    }

    pub fn into_inner(self) -> (r: P)
        ensures
            r == self.value_provider,
    {
        self.value_provider
    }
}

/// The proven records of a value that was asked for under a root and a hash: a
/// value of another name, or one that is not secure, proves nothing.
pub open spec fn matched_records(
    root_name: Seq<char>,
    name_hash: Seq<u8>,
    value: Result<ValueView, ResolverError>,
) -> Result<ProvenView, ResolverError> {
    match value {
        Err(error) => Err(error),
        Ok(verified) => if verified.root_name != root_name || verified.name_hash != name_hash
            || !verified.secure {
            Err(ResolverError::ProofNameMismatch)
        } else {
            proven_from(verified)
        },
    }
}

/// Holds a provider's value against the name it was asked for.
pub fn match_resource_value(
    root_name: &str,
    name_hash: NameHash,
    value: Result<VerifiedResourceValue, ResolverError>,
) -> (r: Result<ProvenNameRecords, ResolverError>)
    ensures
        proven_reply(r) == matched_records(root_name@, name_hash@, value_reply(value)),
{
    match value {
        Err(error) => Err(error),
        Ok(verified) => {
            if !text::same_text(&verified.root_name, root_name) || !verified.name_hash.same(
                &name_hash,
            ) || !verified.secure {
                return Err(ResolverError::ProofNameMismatch);
            }
            ProvenNameRecords::from_verified_resource_value(verified)
        },
    }
}

impl<P: HnsResourceValueProvider> HnsProofProvider for ResourceValueProofProvider<P> {
    open spec fn proves(
        pre: Self,
        root_name: Seq<char>,
        name_hash: Seq<u8>,
        reply: Result<ProvenView, ResolverError>,
        post: Self,
    ) -> bool {
        exists|value: Result<ValueView, ResolverError>|
            #[trigger] P::proves_value(
                pre.value_provider,
                root_name,
                name_hash,
                value,
                post.value_provider,
            ) && reply == matched_records(root_name, name_hash, value)
    }

    fn prove_name(&mut self, root_name: &str, name_hash: NameHash) -> (r: Result<
        ProvenNameRecords,
        ResolverError,
    >) {
        let ghost pre = *self;
        let value = self.value_provider.prove_resource_value(root_name, name_hash);
        assert(P::proves_value(
            pre.value_provider,
            root_name@,
            name_hash@,
            value_reply(value),
            self.value_provider,
        ));
        match_resource_value(root_name, name_hash, value)
    }
}

/// A secure value that was proven for the name asked for gives the records that it
/// decodes to, and is secure; one that is empty proves that the name does not
/// exist.
pub proof fn law_value_gives_its_records(
    root_name: Seq<char>,
    name_hash: Seq<u8>,
    value: ValueView,
)
    requires
        value.root_name == root_name,
        value.name_hash == name_hash,
        value.secure,
        name::parse_name(root_name) is Some,
    ensures
        value.value matches Some(payload) ==> (payload.decoded matches Ok(records) ==> (
        matched_records(root_name, name_hash, Ok(value)) matches Ok(proven) && proven.exists
            && proven.secure && proven.records == records && proven.root_name == root_name
            && proven.name_hash == name_hash)),
        value.value is None ==> (matched_records(root_name, name_hash, Ok(value)) matches Ok(proven)
            && !proven.exists && proven.secure && proven.records.len() == 0 && proven.root_name
            == root_name && proven.name_hash == name_hash),
{
}

} // verus!
