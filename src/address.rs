//! Store addresses: a tag's canonical serialization followed by the
//! serialized domain constant, hashed with Keccak-256 and cut to its first
//! 20 bytes.

use vstd::prelude::*;
use tiny_keccak::Hasher;
use vstd::string::StringSliceAdditionalSpecFns;

verus! {

/// Number of bytes of a store address.
pub const ADDRESS_LEN: usize = 20;

/// Domain constant appended to every serialized tag before hashing.
pub const ADDRESS_DOMAIN: &'static str = "constant";

/// The eight little-endian bytes of `n`.
pub open spec fn le_u64_bytes(n: nat) -> Seq<u8> {
    Seq::new(8, |i: int| ((n / pow256(i as nat)) % 256) as u8)
}

/// `256` to the power `k`.
pub open spec fn pow256(k: nat) -> nat
    decreases k,
{
    if k == 0 {
        1
    } else {
        256 * pow256((k - 1) as nat)
    }
}

/// The fixed-width length-prefixed encoding of a byte string: its length as
/// eight little-endian bytes, then the bytes themselves.
pub open spec fn framed(b: Seq<u8>) -> Seq<u8> {
    le_u64_bytes(b.len()) + b
}

/// What Keccak-256 returns on `data`.
pub uninterp spec fn keccak256_of(data: Seq<u8>) -> Seq<u8>;

/// The bytes that are hashed to obtain the address of the serialized tag
/// `tag`.
pub open spec fn address_preimage(tag: Seq<u8>, domain: Seq<u8>) -> Seq<u8> {
    tag + framed(domain)
}

/// The address of a serialized tag, given the bytes of the domain constant.
pub open spec fn address_of(tag: Seq<u8>, domain: Seq<u8>) -> Seq<u8> {
    keccak256_of(address_preimage(tag, domain)).subrange(0, ADDRESS_LEN as int)
}

/// Relies on `bincode::serialize` (default options: fixed-width integers,
/// little endian, no size limit): a byte slice is written as its length in
/// eight little-endian bytes followed by its bytes, and writing into a
/// `Vec` does not fail.
#[verifier::external_body]
fn bincode_bytes(b: &[u8]) -> (r: Option<Vec<u8>>)
    ensures
        r.is_some(),
        r.unwrap()@ == framed(b@),
{
    bincode::serialize(b).ok()
}

/// Relies on `tiny_keccak::Keccak::v256`: the 32-byte Keccak-256 digest of
/// `data`.
#[verifier::external_body]
fn keccak256(data: &[u8]) -> (r: [u8; 32])
    ensures
        r@ == keccak256_of(data@),
{
    let mut hasher = tiny_keccak::Keccak::v256();
    let mut output = [0u8; 32];
    hasher.update(data);
    hasher.finalize(&mut output);
    output
}

/// The first `ADDRESS_LEN` bytes of a digest.
pub fn truncate_digest(digest: &[u8; 32]) -> (r: [u8; 20])
    ensures
        r@ == digest@.subrange(0, ADDRESS_LEN as int),
{
    let mut r: [u8; 20] = [0u8; 20];
    let mut i: usize = 0;
    while i < ADDRESS_LEN
        invariant
            0 <= i <= ADDRESS_LEN,
            r@.len() == ADDRESS_LEN,
            digest@.len() == 32,
            forall|j: int| 0 <= j < i ==> r@[j] == digest@[j],
        decreases ADDRESS_LEN - i,
    {
        r[i] = digest[i];
        i = i + 1;
    }
    assert(r@ =~= digest@.subrange(0, ADDRESS_LEN as int));
    r
}

/// The store address of a serialized tag.
pub fn to_address(tag: &Vec<u8>) -> (r: [u8; 20])
    ensures
        r@ == address_of(tag@, ADDRESS_DOMAIN.spec_bytes()),
{
    let mut combined = vstd::slice::slice_to_vec(tag.as_slice());
    let mut framed_domain = bincode_bytes(ADDRESS_DOMAIN.as_bytes()).unwrap();
    combined.append(&mut framed_domain);
    let digest = keccak256(combined.as_slice());
    truncate_digest(&digest)
}

} // verus!
