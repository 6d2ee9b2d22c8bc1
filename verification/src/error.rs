//! Why a resolution fails.
use vstd::prelude::*;
use vstd::string::*;

verus! {

/// Why a label cannot be a Handshake root.
#[derive(Clone, Copy, Debug, PartialEq, Eq, Structural)]
pub enum NameHashError {
    Empty,
    TooLong,
    InvalidCharacter,
    Reserved,
}

impl NameHashError {
    pub open spec fn text(self) -> Seq<char> {
        match self {
            NameHashError::Empty => "name is empty"@,
            NameHashError::TooLong => "name is longer than 63 characters"@,
            NameHashError::InvalidCharacter => "name holds an invalid character"@,
            NameHashError::Reserved => "name is reserved"@,
        }
    }

    pub fn message(self) -> (r: String)
        ensures
            r@ == self.text(),
    {
        match self {
            NameHashError::Empty => "name is empty".to_owned(),
            NameHashError::TooLong => "name is longer than 63 characters".to_owned(),
            NameHashError::InvalidCharacter => "name holds an invalid character".to_owned(),
            NameHashError::Reserved => "name is reserved".to_owned(),
        }
    }
}

/// Why a name could not be resolved.
#[derive(Clone, Debug, PartialEq, Eq)]
pub enum ResolverError {
    ProofUnavailable,
    InvalidName(NameHashError),
    ProofNameMismatch,
    NameNotFound,
    LocalChainNotCurrent,
    DnssecFailed,
    /// The resource payload does not decode, for the reason given.
    InvalidResource(String),
    UnsupportedBackend,
    NoNameserverAddress,
    DnsTransport(String),
    InvalidDnsResponse,
    CachePoisoned,
    Storage(String),
}

impl ResolverError {
    pub open spec fn text(self) -> Seq<char> {
        match self {
            ResolverError::ProofUnavailable => "HNS proof is unavailable"@,
            ResolverError::InvalidName(error) => "HNS name is invalid: "@ + error.text(),
            ResolverError::ProofNameMismatch => "HNS proof payload does not match requested name"@,
            ResolverError::NameNotFound => "HNS name does not exist"@,
            ResolverError::LocalChainNotCurrent =>
                "local HNS chain is not current enough to determine current name state"@,
            ResolverError::DnssecFailed => "DNSSEC validation failed"@,
            ResolverError::InvalidResource(reason) => "HNS resource payload is invalid: "@
                + reason@,
            ResolverError::UnsupportedBackend => "resolver backend is not implemented"@,
            ResolverError::NoNameserverAddress =>
                "HNS delegation has no usable nameserver address"@,
            ResolverError::DnsTransport(reason) => "DNS transport failed: "@ + reason@,
            ResolverError::InvalidDnsResponse => "DNS response is invalid"@,
            ResolverError::CachePoisoned => "resolver cache lock is poisoned"@,
            ResolverError::Storage(reason) => "resolver storage error: "@ + reason@,
        }
    }

    /// The error as a sentence.
    pub fn message(&self) -> (r: String)
        ensures
            r@ == self.text(),
    {
        match self {
            ResolverError::ProofUnavailable => "HNS proof is unavailable".to_owned(),
            ResolverError::InvalidName(error) => {
                "HNS name is invalid: ".to_owned().concat(error.message().as_str())
            },
            ResolverError::ProofNameMismatch => {
                "HNS proof payload does not match requested name".to_owned()
            },
            ResolverError::NameNotFound => "HNS name does not exist".to_owned(),
            ResolverError::LocalChainNotCurrent => {
                "local HNS chain is not current enough to determine current name state".to_owned()
            },
            ResolverError::DnssecFailed => "DNSSEC validation failed".to_owned(),
            ResolverError::InvalidResource(reason) => {
                "HNS resource payload is invalid: ".to_owned().concat(reason.as_str())
            },
            ResolverError::UnsupportedBackend => "resolver backend is not implemented".to_owned(),
            ResolverError::NoNameserverAddress => {
                "HNS delegation has no usable nameserver address".to_owned()
            },
            ResolverError::DnsTransport(reason) => {
                "DNS transport failed: ".to_owned().concat(reason.as_str())
            },
            ResolverError::InvalidDnsResponse => "DNS response is invalid".to_owned(),
            ResolverError::CachePoisoned => "resolver cache lock is poisoned".to_owned(),
            ResolverError::Storage(reason) => {
                "resolver storage error: ".to_owned().concat(reason.as_str())
            },
        }
    }
}

} // verus!
