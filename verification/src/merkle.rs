//! The Merkle builder: a leaf sequence is reduced to one root digest by
//! repeated pairwise combination.
//!
//! A non-empty level is partitioned into consecutive pairs, the last element
//! of an odd level paired with itself. Each pair is ordered byte-wise
//! lexicographically, concatenated and hashed; the parents, in the order of
//! their source pairs, form the next level. The process ends when one digest
//! remains. An empty leaf set yields the reserved all-zero digest.

use vstd::prelude::*;
use crate::digest::{zero_digest, lex_leq, lemma_lex_leq_total, lemma_lex_leq_antisymmetric,
    digest_leq};
use crate::hashing::{sha256_of, sha256_digest};

verus! {

/// The digests of one level, each as a byte sequence.
pub open spec fn digests_of(level: Seq<[u8; 32]>) -> Seq<Seq<u8>> {
    level.map(|i: int, d: [u8; 32]| d@)
}

/// The parent of two children: the hash of `lo || hi`, where `lo` and `hi`
/// are the two digests in unsigned byte-wise lexicographic order.
pub open spec fn combine_spec(a: Seq<u8>, b: Seq<u8>) -> Seq<u8> {
    if lex_leq(a, b) {
        sha256_of(a + b)
    } else {
        sha256_of(b + a)
    }
}

/// One combining pass over a level: consecutive pairs, the last element of an
/// odd level paired with itself.
pub open spec fn next_level_spec(level: Seq<Seq<u8>>) -> Seq<Seq<u8>>
    decreases level.len(),
{
    if level.len() == 0 {
        Seq::<Seq<u8>>::empty()
    } else if level.len() == 1 {
        seq![combine_spec(level[0], level[0])]
    } else {
        seq![combine_spec(level[0], level[1])] + next_level_spec(level.skip(2))
    }
}

/// One combining pass halves a level, rounding up.
pub proof fn lemma_next_level_len(level: Seq<Seq<u8>>)
    ensures
        next_level_spec(level).len() == (level.len() + 1) / 2,
    decreases level.len(),
{
    if level.len() >= 2 {
        lemma_next_level_len(level.skip(2));
    }
}

/// The Merkle root of a leaf sequence: the all-zero digest for no leaves, the
/// single leaf unchanged, otherwise the root of the next level.
pub open spec fn merkle_root_spec(leaves: Seq<Seq<u8>>) -> Seq<u8>
    decreases leaves.len(),
        via merkle_root_spec_decreases
{
    if leaves.len() == 0 {
        zero_digest()
    } else if leaves.len() == 1 {
        leaves[0]
    } else {
        merkle_root_spec(next_level_spec(leaves))
    }
}

#[via_fn]
proof fn merkle_root_spec_decreases(leaves: Seq<Seq<u8>>) {
    if leaves.len() >= 2 {
        lemma_next_level_len(leaves);
    }
}

/// A combining pass distributes over concatenation at an even split point.
proof fn lemma_next_level_concat(s: Seq<Seq<u8>>, t: Seq<Seq<u8>>)
    requires
        s.len() % 2 == 0,
    ensures
        next_level_spec(s + t) == next_level_spec(s) + next_level_spec(t),
    decreases s.len(),
{
    if s.len() == 0 {
        assert(s + t =~= t);
        assert(next_level_spec(s) + next_level_spec(t) =~= next_level_spec(t));
    } else {
        assert((s + t).len() >= 2);
        assert((s + t)[0] == s[0]);
        assert((s + t)[1] == s[1]);
        assert((s + t).skip(2) =~= s.skip(2) + t);
        lemma_next_level_concat(s.skip(2), t);
        assert(next_level_spec(s + t) =~= next_level_spec(s) + next_level_spec(t));
    }
}

/// Canonicalization makes the combine step symmetric: the parent of two
/// digests is the same whichever order they are given in.
pub proof fn lemma_combine_symmetric(a: Seq<u8>, b: Seq<u8>)
    ensures
        combine_spec(a, b) == combine_spec(b, a),
{
    lemma_lex_leq_total(a, b);
    if lex_leq(a, b) && lex_leq(b, a) {
        lemma_lex_leq_antisymmetric(a, b);
    }
}

/// The root is deterministic: any two results computed from the same leaf
/// sequence are equal, since the root is a pure function of the leaves.
pub proof fn lemma_root_deterministic(leaves: Seq<Seq<u8>>, r1: Seq<u8>, r2: Seq<u8>)
    requires
        r1 == merkle_root_spec(leaves),
        r2 == merkle_root_spec(leaves),
    ensures
        r1 == r2,
{
}

/// Odd-level duplication: for three leaves the first pass pairs the first two
/// leaves and pairs the third with itself, so the root is the combination of
/// the two parents.
pub proof fn lemma_three_leaf_root(h1: Seq<u8>, h2: Seq<u8>, h3: Seq<u8>)
    ensures
        merkle_root_spec(seq![h1, h2, h3]) == combine_spec(
            combine_spec(h1, h2),
            combine_spec(h3, h3),
        ),
{
    let l0 = seq![h1, h2, h3];
    assert(l0.skip(2) =~= seq![h3]);
    assert(next_level_spec(seq![h3]) =~= seq![combine_spec(h3, h3)]);
    assert(next_level_spec(l0) =~= seq![combine_spec(h1, h2), combine_spec(h3, h3)]);
    let l1 = next_level_spec(l0);
    assert(l1.skip(2) =~= Seq::<Seq<u8>>::empty());
    assert(next_level_spec(l1.skip(2)) =~= Seq::<Seq<u8>>::empty());
    assert(next_level_spec(l1) =~= seq![combine_spec(combine_spec(h1, h2), combine_spec(h3, h3))]);
    assert(merkle_root_spec(l0) == merkle_root_spec(l1));
    assert(merkle_root_spec(l1) == merkle_root_spec(next_level_spec(l1)));
}

/// Combine two 32-byte digests into their parent: the smaller digest (in
/// byte-wise lexicographic order) is concatenated before the larger one, and
/// the 64-byte concatenation is hashed.
pub fn combine(a: &[u8; 32], b: &[u8; 32]) -> (parent: [u8; 32])
    ensures
        parent@ == combine_spec(a@, b@),
{
    let a_first = digest_leq(a, b);
    let lo: [u8; 32] = if a_first {
        *a
    } else {
        *b
    };
    let hi: [u8; 32] = if a_first {
        *b
    } else {
        *a
    };
    let mut buf: Vec<u8> = Vec::new();
    let mut i: usize = 0;
    while i < 32
        invariant
            i <= 32,
            buf@ == lo@.take(i as int),
        decreases 32 - i,
    {
        buf.push(lo[i]);
        proof {
            assert(lo@.take(i + 1) =~= lo@.take(i as int).push(lo@[i as int]));
        }
        i += 1;
    }
    let mut j: usize = 0;
    while j < 32
        invariant
            j <= 32,
            buf@ == lo@.take(32) + hi@.take(j as int),
        decreases 32 - j,
    {
        buf.push(hi[j]);
        proof {
            assert(hi@.take(j + 1) =~= hi@.take(j as int).push(hi@[j as int]));
            assert(lo@.take(32) + hi@.take(j + 1) =~= (lo@.take(32) + hi@.take(j as int)).push(
                hi@[j as int]));
        }
        j += 1;
    }
    proof {
        assert(buf@ =~= lo@ + hi@);
    }
    let parent = sha256_digest(buf.as_slice());
    parent
}

/// Reduce a leaf sequence to its Merkle root. Total: an empty leaf set yields
/// the reserved all-zero digest, a single leaf is returned unchanged, and any
/// longer level is collapsed pairwise until one digest remains.
pub fn calculate_merkle_root(leaves: &Vec<[u8; 32]>) -> (root: [u8; 32])
    ensures
        root@ == merkle_root_spec(digests_of(leaves@)),
        leaves@.len() == 0 ==> root@ == zero_digest(),
        leaves@.len() == 1 ==> root == leaves@[0],
{
    if leaves.len() == 0 {
        let z: [u8; 32] = [0u8; 32];
        proof {
            assert(z@ =~= zero_digest());
            assert(digests_of(leaves@).len() == 0);
        }
        return z;
    }
    let mut current: Vec<[u8; 32]> = Vec::new();
    let mut i: usize = 0;
    while i < leaves.len()
        invariant
            i <= leaves@.len(),
            current@ == leaves@.take(i as int),
        decreases leaves@.len() - i,
    {
        current.push(leaves[i]);
        proof {
            assert(leaves@.take(i + 1) =~= leaves@.take(i as int).push(leaves@[i as int]));
        }
        i += 1;
    }
    proof {
        assert(current@ =~= leaves@);
    }
    while current.len() > 1
        invariant
            current@.len() >= 1,
            merkle_root_spec(digests_of(current@)) == merkle_root_spec(digests_of(leaves@)),
        decreases current@.len(),
    {
        let mut next: Vec<[u8; 32]> = Vec::new();
        let mut k: usize = 0;
        proof {
            assert(digests_of(current@).take(0) =~= Seq::<Seq<u8>>::empty());
            assert(digests_of(next@) =~= Seq::<Seq<u8>>::empty());
        }
        while k < current.len()
            invariant
                k <= current@.len(),
                k % 2 == 0 || k == current@.len(),
                digests_of(next@) == next_level_spec(digests_of(current@).take(k as int)),
            decreases current@.len() - k,
        {
            let ghost cur_s = digests_of(current@);
            let left = current[k];
            let pair_complete = k + 1 < current.len();
            let right = if pair_complete {
                current[k + 1]
            } else {
                current[k]
            };
            let parent = combine(&left, &right);
            next.push(parent);
            proof {
                assert(cur_s[k as int] == left@);
                if pair_complete {
                    assert(cur_s[k as int + 1] == right@);
                    let pair = seq![cur_s[k as int], cur_s[k as int + 1]];
                    assert(cur_s.take(k + 2) =~= cur_s.take(k as int) + pair);
                    lemma_next_level_concat(cur_s.take(k as int), pair);
                    assert(pair.skip(2) =~= Seq::<Seq<u8>>::empty());
                    assert(next_level_spec(pair.skip(2)) =~= Seq::<Seq<u8>>::empty());
                    assert(next_level_spec(pair) =~= seq![combine_spec(left@, right@)]);
                    assert(digests_of(next@) =~= next_level_spec(cur_s.take(k as int)) + seq![
                        combine_spec(left@, right@)]);
                } else {
                    let single = seq![cur_s[k as int]];
                    assert(cur_s.take(k + 1) =~= cur_s.take(k as int) + single);
                    lemma_next_level_concat(cur_s.take(k as int), single);
                    assert(next_level_spec(single) =~= seq![combine_spec(left@, left@)]);
                    assert(digests_of(next@) =~= next_level_spec(cur_s.take(k as int)) + seq![
                        combine_spec(left@, right@)]);
                }
            }
            if pair_complete {
                k += 2;
            } else {
                k += 1;
            }
        }
        proof {
            let cur_s = digests_of(current@);
            assert(cur_s.take(cur_s.len() as int) =~= cur_s);
            assert(digests_of(next@) == next_level_spec(cur_s));
            assert(merkle_root_spec(cur_s) == merkle_root_spec(next_level_spec(cur_s)));
            lemma_next_level_len(cur_s);
        }
        current = next;
    }
    let root = current[0];
    proof {
        assert(digests_of(current@)[0] == current@[0]@);
        assert(merkle_root_spec(digests_of(current@)) == current@[0]@);
    }
    root
}

} // verus!
