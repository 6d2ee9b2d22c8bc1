//! Requests, answers, and the traits that a resolver is put together from.
//!
//! Each trait names the relation between what its method is given and what it
//! may reply. An implementation fixes the relation as it sees fit; the library
//! relies on nothing but that the reply stands in it.
use crate::dns;
use crate::dns::{Labels, RecordView, ResourceRecord};
use crate::error::ResolverError;
use crate::name::DnsName;
use crate::nameserver::{DelegationView, HnsDelegation};
use vstd::prelude::*;
use vstd::string::*;

verus! {

#[derive(Clone, Debug, PartialEq, Eq)]
pub struct ResolutionRequest {
    pub qname: String,
    pub qtype: u16,
}

pub struct RequestView {
    pub qname: Seq<char>,
    pub qtype: u16,
}

impl View for ResolutionRequest {
    type V = RequestView;

    open spec fn view(&self) -> RequestView {
        RequestView { qname: self.qname@, qtype: self.qtype }
    }
}

impl ResolutionRequest {
    pub fn copy(&self) -> (r: ResolutionRequest)
        ensures
            r@ == self@,
    {
        ResolutionRequest { qname: self.qname.clone(), qtype: self.qtype }
    }
}

#[derive(Clone, Debug, PartialEq, Eq)]
pub struct ResolutionAnswer {
    pub name: DnsName,
    pub records: Vec<ResourceRecord>,
    pub secure: bool,
}

pub struct AnswerView {
    pub name: Labels,
    pub records: Seq<RecordView>,
    pub secure: bool,
}

impl View for ResolutionAnswer {
    type V = AnswerView;

    open spec fn view(&self) -> AnswerView {
        AnswerView {
            name: self.name@,
            records: dns::record_views(self.records@),
            secure: self.secure,
        }
    }
}

impl ResolutionAnswer {
    pub fn copy(&self) -> (r: ResolutionAnswer)
        ensures
            r@ == self@,
    {
        ResolutionAnswer {
            name: self.name.copy(),
            records: dns::copy_records(&self.records),
            secure: self.secure,
        }
    }
}

/// What a resolution replies, over the answer's view.
pub type Reply = Result<AnswerView, ResolverError>;

pub open spec fn answer_reply(r: Result<ResolutionAnswer, ResolverError>) -> Reply {
    match r {
        Ok(answer) => Ok(answer@),
        Err(error) => Err(error),
    }
}

pub trait Resolver: Sized {
    /// Whether a resolver in state `pre` may reply `reply` to `request` and be
    /// left in state `post`.
    /// By default anything may.
    open spec fn resolves(pre: Self, request: RequestView, reply: Reply, post: Self) -> bool {
        true
    }

    fn resolve(&mut self, request: &ResolutionRequest) -> (r: Result<
        ResolutionAnswer,
        ResolverError,
    >)
        ensures
            Self::resolves(*old(self), request@, answer_reply(r), *final(self)),
    ;
}

pub trait DelegatedResolver: Sized {
    /// Whether a resolver in state `pre` may reply `reply` to `request` under
    /// `delegation` and be left in state `post`.
    /// By default anything may.
    open spec fn resolves_delegated(
        pre: Self,
        request: RequestView,
        delegation: DelegationView,
        reply: Reply,
        post: Self,
    ) -> bool {
        true
    }

    fn resolve_delegated(&mut self, request: &ResolutionRequest, delegation: &HnsDelegation) -> (r:
        Result<ResolutionAnswer, ResolverError>)
        ensures
            Self::resolves_delegated(
                *old(self),
                request@,
                delegation@,
                answer_reply(r),
                *final(self),
            ),
    ;
}

/// A plain resolver answers for a delegation as it answers without one.
impl<R: Resolver> DelegatedResolver for R {
    open spec fn resolves_delegated(
        pre: Self,
        request: RequestView,
        delegation: DelegationView,
        reply: Reply,
        post: Self,
    ) -> bool {
        R::resolves(pre, request, reply, post)
    }

    fn resolve_delegated(&mut self, request: &ResolutionRequest, delegation: &HnsDelegation) -> (r:
        Result<ResolutionAnswer, ResolverError>) {
        self.resolve(request)
    }
}

/// The resolver that answers nothing.
pub struct FailClosedResolver;

impl Resolver for FailClosedResolver {
    open spec fn resolves(pre: Self, request: RequestView, reply: Reply, post: Self) -> bool {
        reply == Err::<AnswerView, _>(ResolverError::UnsupportedBackend)
    }

    fn resolve(&mut self, request: &ResolutionRequest) -> (r: Result<
        ResolutionAnswer,
        ResolverError,
    >) {
        Err(ResolverError::UnsupportedBackend)
    }
}

} // verus!
