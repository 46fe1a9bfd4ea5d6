//! A Merkle root calculator: an ordered collection of data items is summarized
//! by one 32-byte digest. Raw items are hashed into leaf digests with SHA-256,
//! and a leaf sequence is reduced to the root by repeated pairwise combination,
//! each pair canonicalized by byte-wise lexicographic order before hashing and
//! the last element of an odd level paired with itself.
//!
//! Known, accepted limitation: the all-zero digest returned for an empty leaf
//! set is, in principle, indistinguishable from an (astronomically improbable)
//! genuine hash collision producing all-zero bytes. Callers for whom that
//! distinction matters should special-case empty input.

pub mod digest;
pub mod hashing;
pub mod merkle;
