//! Why synchronisation fails.
use crate::error::ResolverError;
use vstd::prelude::*;
use vstd::string::*;

verus! {

/// Why the header chain refuses a header, or cannot be read.
#[derive(Clone, Debug, PartialEq, Eq)]
pub enum ChainError {
    UnknownParent,
    DuplicateHeader,
    InvalidGenesisHeader,
    InvalidDifficultyBits,
    InvalidDifficultyWindow,
    InvalidProofOfWork,
    Pow(String),
    MissingBestHeader,
    Storage(String),
}

/// Why a name proof is refused.
#[derive(Clone, Debug, PartialEq, Eq)]
pub enum ProofError {
    Malformed,
    UnsupportedVerifier,
    Other(String),
}

#[derive(Clone, Debug, PartialEq, Eq)]
pub enum SyncError {
    Chain(ChainError),
    /// The peer connection failed, for the reason given.
    P2p(String),
    Proof(ProofError),
    Resolver(ResolverError),
    UnexpectedAction,
    UnexpectedProof,
    ProofMismatch,
    UnverifiedProof,
    MissingProofValue,
    MalformedNameStateValue,
}

impl ChainError {
    pub open spec fn text(self) -> Seq<char> {
        match self {
            ChainError::UnknownParent => "header parent is unknown"@,
            ChainError::DuplicateHeader => "header is already stored"@,
            ChainError::InvalidGenesisHeader => "genesis header is invalid"@,
            ChainError::InvalidDifficultyBits => "header difficulty bits are invalid"@,
            ChainError::InvalidDifficultyWindow => "header difficulty window is invalid"@,
            ChainError::InvalidProofOfWork => "header proof of work is invalid"@,
            ChainError::Pow(reason) => "proof of work error: "@ + reason@,
            ChainError::MissingBestHeader => "best header is missing"@,
            ChainError::Storage(reason) => "header storage error: "@ + reason@,
        }
    }

    pub fn message(&self) -> (r: String)
        ensures
            r@ == self.text(),
    {
        match self {
            ChainError::UnknownParent => "header parent is unknown".to_owned(),
            ChainError::DuplicateHeader => "header is already stored".to_owned(),
            ChainError::InvalidGenesisHeader => "genesis header is invalid".to_owned(),
            ChainError::InvalidDifficultyBits => "header difficulty bits are invalid".to_owned(),
            ChainError::InvalidDifficultyWindow => {
                "header difficulty window is invalid".to_owned()
            },
            ChainError::InvalidProofOfWork => "header proof of work is invalid".to_owned(),
            ChainError::Pow(reason) => {
                "proof of work error: ".to_owned().concat(reason.as_str())
            },
            ChainError::MissingBestHeader => "best header is missing".to_owned(),
            ChainError::Storage(reason) => {
                "header storage error: ".to_owned().concat(reason.as_str())
            },
        }
    }
}

impl ProofError {
    pub open spec fn text(self) -> Seq<char> {
        match self {
            ProofError::Malformed => "proof is malformed"@,
            ProofError::UnsupportedVerifier => "proof verifier is not available"@,
            ProofError::Other(reason) => reason@,
        }
    }

    pub fn message(&self) -> (r: String)
        ensures
            r@ == self.text(),
    {
        match self {
            ProofError::Malformed => "proof is malformed".to_owned(),
            ProofError::UnsupportedVerifier => "proof verifier is not available".to_owned(),
            ProofError::Other(reason) => reason.clone(),
        }
    }
}

impl SyncError {
    pub open spec fn text(self) -> Seq<char> {
        match self {
            SyncError::Chain(error) => "chain error: "@ + error.text(),
            SyncError::P2p(reason) => "p2p error: "@ + reason@,
            SyncError::Proof(error) => "proof error: "@ + error.text(),
            SyncError::Resolver(error) => "resolver error: "@ + error.text(),
            SyncError::UnexpectedAction => "unexpected sync action"@,
            SyncError::UnexpectedProof => "proof response was not requested"@,
            SyncError::ProofMismatch => "proof payload does not match requested root or key"@,
            SyncError::UnverifiedProof => "proof verification failed"@,
            SyncError::MissingProofValue => {
                "verified inclusion proof did not contain a resource value"@
            },
            SyncError::MalformedNameStateValue => "HSD name state value is malformed"@,
        }
    }

    pub fn message(&self) -> (r: String)
        ensures
            r@ == self.text(),
    {
        match self {
            SyncError::Chain(error) => {
                let reason = error.message();
                "chain error: ".to_owned().concat(reason.as_str())
            },
            SyncError::P2p(reason) => "p2p error: ".to_owned().concat(reason.as_str()),
            SyncError::Proof(error) => {
                let reason = error.message();
                "proof error: ".to_owned().concat(reason.as_str())
            },
            SyncError::Resolver(error) => {
                let reason = error.message();
                "resolver error: ".to_owned().concat(reason.as_str())
            },
            SyncError::UnexpectedAction => "unexpected sync action".to_owned(),
            SyncError::UnexpectedProof => "proof response was not requested".to_owned(),
            SyncError::ProofMismatch => {
                "proof payload does not match requested root or key".to_owned()
            },
            SyncError::UnverifiedProof => "proof verification failed".to_owned(),
            SyncError::MissingProofValue => {
                "verified inclusion proof did not contain a resource value".to_owned()
            },
            SyncError::MalformedNameStateValue => "HSD name state value is malformed".to_owned(),
        }
    }
}

} // verus!
