//! Hashes, and the hash that a Handshake name is filed under.
use crate::error::NameHashError;
use crate::name;
use vstd::prelude::*;
use vstd::string::*;
use vstd::utf8::*;

verus! {

/// The bytes of a hash.
pub const HASH_BYTES: usize = 32;

/// The SHA3-256 digest of `data`.
pub uninterp spec fn sha3_256(data: Seq<u8>) -> Seq<u8>;

/// `Sha3_256::digest` of the `sha3` crate: the SHA3-256 digest of its argument,
/// always 32 bytes.
#[verifier::external_body]
fn sha3_256_digest(data: &[u8]) -> (r: [u8; 32])
    ensures
        r@ == sha3_256(data@),
{
    <sha3::Sha3_256 as sha3::Digest>::digest(data).into()
}

/// The SHA-256 digest of `data`.
pub uninterp spec fn sha2_256(data: Seq<u8>) -> Seq<u8>;

/// `Sha256::digest` of the `sha2` crate: the SHA-256 digest of its argument,
/// always 32 bytes.
#[verifier::external_body]
fn sha2_256_digest(data: &[u8]) -> (r: [u8; 32])
    ensures
        r@ == sha2_256(data@),
{
    <sha2::Sha256 as sha2::Digest>::digest(data).into()
}

/// The SHA-256 digest of bytes.
pub fn sha256(data: &Vec<u8>) -> (r: Vec<u8>)
    ensures
        r@ == sha2_256(data@),
{
    Hash256 { bytes: sha2_256_digest(data.as_slice()) }.to_bytes()
}

/// A hash of 32 bytes.
#[derive(Clone, Copy, Debug, PartialEq, Eq)]
pub struct Hash256 {
    pub bytes: [u8; 32],
}

impl View for Hash256 {
    type V = Seq<u8>;

    open spec fn view(&self) -> Seq<u8> {
        self.bytes@
    }
}

impl Hash256 {
    pub fn to_bytes(&self) -> (r: Vec<u8>)
        ensures
            r@ == self@,
    {
        let mut out: Vec<u8> = Vec::new();
        let mut i: usize = 0;
        while i < HASH_BYTES
            invariant
                i <= HASH_BYTES,
                out@ == self@.take(i as int),
            decreases HASH_BYTES - i,
        {
            out.push(self.bytes[i]);
            assert(out@ =~= self@.take(i + 1));
            i = i + 1;
        }
        assert(self@.take(i as int) =~= self@);
        out
    }

    pub fn new(bytes: [u8; 32]) -> (r: Hash256)
        ensures
            r@ == bytes@,
    {
        Hash256 { bytes }
    }

    /// The hash with these bytes; `None` unless there are 32 of them.
    pub fn from_slice(bytes: &Vec<u8>) -> (r: Option<Hash256>)
        ensures
            match r {
                Some(hash) => hash@ == bytes@,
                None => bytes@.len() != HASH_BYTES,
            },
    {
        if bytes.len() != HASH_BYTES {
            return None;
        }
        let mut out: [u8; 32] = [0u8; 32];
        let mut i: usize = 0;
        while i < 32
            invariant
                i <= 32,
                bytes.len() == 32,
                forall|j: int| 0 <= j < i ==> out@[j] == bytes@[j],
            decreases 32 - i,
        {
            out[i] = bytes[i];
            i = i + 1;
        }
        assert(out@ =~= bytes@);
        Some(Hash256 { bytes: out })
    }

    pub fn same(&self, other: &Hash256) -> (r: bool)
        ensures
            r == (self@ == other@),
    {
        let mut i: usize = 0;
        while i < 32
            invariant
                i <= 32,
                forall|j: int| 0 <= j < i ==> self.bytes@[j] == other.bytes@[j],
            decreases 32 - i,
        {
            if self.bytes[i] != other.bytes[i] {
                assert(self@[i as int] != other@[i as int]);
                return false;
            }
            i = i + 1;
        }
        assert(self@ =~= other@);
        true
    }
}

/// The hash that a name is filed under in the Handshake tree.
pub open spec fn hash_of_name(root: Seq<char>) -> Seq<u8> {
    sha3_256(encode_utf8(root))
}

/// The hash of a Handshake name.
#[derive(Clone, Copy, Debug, PartialEq, Eq)]
pub struct NameHash {
    pub hash: Hash256,
}

impl View for NameHash {
    type V = Seq<u8>;

    open spec fn view(&self) -> Seq<u8> {
        self.hash@
    }
}

impl NameHash {
    pub fn new(hash: Hash256) -> (r: NameHash)
        ensures
            r@ == hash@,
    {
        NameHash { hash }
    }

    /// The hash of a name, where it can be a Handshake root.
    pub fn from_name(root: &str) -> (r: Result<NameHash, NameHashError>)
        ensures
            match r {
                Ok(hash) => name::hns_label_error(root@) is None && hash@ == hash_of_name(root@),
                Err(error) => name::hns_label_error(root@) == Some(error),
            },
    {
        match name::check_hns_label(root) {
            Some(error) => Err(error),
            None => Ok(NameHash { hash: Hash256 { bytes: sha3_256_digest(root.as_bytes()) } }),
        }
    }

    pub fn as_hash(&self) -> (r: Hash256)
        ensures
            r@ == self@,
    {
        self.hash
    }

    pub fn same(&self, other: &NameHash) -> (r: bool)
        ensures
            r == (self@ == other@),
    {
        self.hash.same(&other.hash)
    }
}

} // verus!
