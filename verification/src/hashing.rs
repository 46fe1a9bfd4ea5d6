//! The leaf hasher: raw byte strings are mapped to 32-byte SHA-256 digests.

use vstd::prelude::*;

verus! {

/// The 32-byte SHA-256 digest of a byte string. The digest is a pure function
/// of the bytes alone; its value is not axiomatized here.
pub uninterp spec fn sha256_of(data: Seq<u8>) -> Seq<u8>;

/// Relies on sha2::Sha256::digest (through the sha2::Digest trait): the
/// SHA-256 digest of the input bytes, a pure function of those bytes alone.
#[verifier::external_body]
pub(crate) fn sha256_digest(data: &[u8]) -> (r: [u8; 32])
    ensures
        r@ == sha256_of(data@),
{
    <sha2::Sha256 as sha2::Digest>::digest(data).into()
}

/// Hash one raw item into its leaf digest. Total: no input is rejected.
pub fn hash_leaf(raw: &[u8]) -> (d: [u8; 32])
    ensures
        d@ == sha256_of(raw@),
{
    sha256_digest(raw)
}

/// Hash each raw item into its leaf digest, keeping length and order.
pub fn hash_leaves(items: &Vec<Vec<u8>>) -> (leaves: Vec<[u8; 32]>)
    ensures
        leaves@.len() == items@.len(),
        forall|i: int| 0 <= i < items@.len() ==> leaves@[i]@ == sha256_of(items@[i]@),
{
    let mut leaves: Vec<[u8; 32]> = Vec::new();
    let mut i: usize = 0;
    while i < items.len()
        invariant
            i <= items@.len(),
            leaves@.len() == i,
            forall|j: int| 0 <= j < i ==> leaves@[j]@ == sha256_of(items@[j]@),
        decreases items@.len() - i,
    {
        let d = sha256_digest(items[i].as_slice());
        leaves.push(d);
        i += 1;
    }
    leaves
}

} // verus!
