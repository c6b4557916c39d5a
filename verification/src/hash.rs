//! Hash functions: SHA-256, RIPEMD-160 and tagged SHA-256.
use vstd::prelude::*;
use vstd::string::StringSliceAdditionalSpecFns;
use bitcoin::hashes::Hash as _;
use crate::bytes::push_slice;

verus! {

/// The SHA-256 digest of a message.
pub uninterp spec fn sha256_of(message: Seq<u8>) -> Seq<u8>;

/// The RIPEMD-160 digest of a message.
pub uninterp spec fn ripemd160_of(message: Seq<u8>) -> Seq<u8>;

/// `bitcoin::hashes::sha256::Hash::hash`: the 32-byte SHA-256 digest of the
/// message, which depends on the message alone.
#[verifier::external_body]
fn outside_sha256(message: &[u8]) -> (digest: [u8; 32])
    ensures
        digest@ == sha256_of(message@),
{
    bitcoin::hashes::sha256::Hash::hash(message).to_byte_array()
}

/// `bitcoin::hashes::ripemd160::Hash::hash`: the 20-byte RIPEMD-160 digest of
/// the message, which depends on the message alone.
#[verifier::external_body]
fn outside_ripemd160(message: &[u8]) -> (digest: [u8; 20])
    ensures
        digest@ == ripemd160_of(message@),
{
    bitcoin::hashes::ripemd160::Hash::hash(message).to_byte_array()
}

/// SHA-256.
pub fn sha256(message: &[u8]) -> (digest: [u8; 32])
    ensures
        digest@ == sha256_of(message@),
{
    outside_sha256(message)
}

/// RIPEMD-160.
pub fn ripemd160(message: &[u8]) -> (digest: [u8; 20])
    ensures
        digest@ == ripemd160_of(message@),
{
    outside_ripemd160(message)
}

/// The tagged hash of BIP-340: `SHA256(SHA256(tag) || SHA256(tag) || message)`.
pub open spec fn tagged_hash_of(tag: &str, message: Seq<u8>) -> Seq<u8> {
    sha256_of(sha256_of(tag.spec_bytes()) + sha256_of(tag.spec_bytes()) + message)
}

/// Computes a tagged hash.
pub fn tagged_hash(tag: &str, message: &[u8]) -> (digest: [u8; 32])
    ensures
        digest@ == tagged_hash_of(tag, message@),
{
    let tag_digest = sha256(tag.as_bytes());
    let mut preimage: Vec<u8> = Vec::new();
    push_slice(&mut preimage, &tag_digest);
    push_slice(&mut preimage, &tag_digest);
    push_slice(&mut preimage, message);
    assert(preimage@ =~= tag_digest@ + tag_digest@ + message@);
    sha256(&preimage)
}

/// A tagged hash covers its whole message behind what depends on the tag alone, which is
/// the digest of the tag, twice.
pub proof fn theorem_tagged_hash_covers_message(tag: &str, a: Seq<u8>, b: Seq<u8>)
    ensures
        exists|head: Seq<u8>|
            {
                &&& #[trigger] sha256_of(head + a) == tagged_hash_of(tag, a)
                &&& sha256_of(head + b) == tagged_hash_of(tag, b)
                &&& head == sha256_of(tag.spec_bytes()) + sha256_of(tag.spec_bytes())
            },
{
    let head = sha256_of(tag.spec_bytes()) + sha256_of(tag.spec_bytes());
    assert(sha256_of(head + a) == tagged_hash_of(tag, a));
}

} // verus!
