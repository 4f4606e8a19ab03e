//! Canonicalization of an atom's neighbour environment.
//!
//! An atom's immediate environment at a fixed depth is an unordered list of
//! (neighbour identifier, bond order) pairs. Hashing must not depend on the
//! order the pairs were collected in, so they are first sorted by bond order
//! and then by identifier; two permutations of the same multiset of pairs
//! always produce the same hash.

use vstd::prelude::*;
use vstd::multiset::Multiset;
use vstd::relations::{sorted_by, total_ordering};
use vstd::seq_lib::lemma_sorted_unique;
use crate::hash::{hash_64, spec_hash_64, HashBaseType};

verus! {

/// One entry of an atom's environment: a neighbour's identifier and the
/// order of the connecting bond (order 0 marks "no traversal yet").
#[derive(Clone, Copy, PartialEq, Eq, Structural, Debug)]
pub struct Pair {
    /// The neighbour's current identifier.
    pub atom: HashBaseType,
    /// The order of the connecting bond.
    pub bond: u8,
}

/// The canonical order on pairs: bond order first, identifier second.
pub open spec fn spec_pair_le(a: Pair, b: Pair) -> bool {
    a.bond < b.bond || (a.bond == b.bond && a.atom <= b.atom)
}

/// The canonical order as a relation value, for the sorting lemmas.
pub open spec fn pair_leq() -> spec_fn(Pair, Pair) -> bool {
    |a: Pair, b: Pair| spec_pair_le(a, b)
}

/// The canonical order on pairs is a total order.
pub proof fn lemma_pair_leq_total()
    ensures
        total_ordering(pair_leq()),
{
    let leq = pair_leq();
    assert forall|a: Pair, b: Pair| #[trigger] leq(a, b) && #[trigger] leq(b, a) implies a == b by {
        assert(a.bond == b.bond && a.atom == b.atom);
    }
}

fn pair_lt(a: &Pair, b: &Pair) -> (r: bool)
    ensures
        r == (spec_pair_le(*a, *b) && *a != *b),
{
    a.bond < b.bond || (a.bond == b.bond && a.atom < b.atom)
}

/// Sort the pairs into the canonical order: bond order ascending, then
/// neighbour identifier ascending.
pub fn sort_pairs(pairs: &mut Vec<Pair>)
    ensures
        final(pairs)@ == old(pairs)@.sort_by(pair_leq()),
{
    proof {
        lemma_pair_leq_total();
        old(pairs)@.lemma_sort_by_ensures(pair_leq());
        broadcast use vstd::seq_lib::group_to_multiset_ensures;

    }
    let ghost orig: Seq<Pair> = pairs@;
    let mut out: Vec<Pair> = Vec::new();
    while pairs.len() > 0
        invariant
            sorted_by(out@, pair_leq()),
            out@.to_multiset().add(pairs@.to_multiset()) =~= orig.to_multiset(),
            forall|i: int, j: int|
                0 <= i < out@.len() && 0 <= j < pairs@.len() ==> spec_pair_le(
                    #[trigger] out@[i],
                    #[trigger] pairs@[j],
                ),
        decreases pairs@.len(),
    {
        let mut best: usize = 0;
        let mut j: usize = 1;
        while j < pairs.len()
            invariant
                0 <= best < j <= pairs@.len(),
                forall|k: int| 0 <= k < j ==> spec_pair_le(pairs@[best as int], #[trigger] pairs@[k]),
            decreases pairs@.len() - j,
        {
            if pair_lt(&pairs[j], &pairs[best]) {
                best = j;
            }
            j += 1;
        }
        let picked = pairs.remove(best);
        out.push(picked);
        proof {
            broadcast use vstd::seq_lib::group_to_multiset_ensures;

            assert(out@.to_multiset().add(pairs@.to_multiset()) =~= orig.to_multiset());
        }
    }
    *pairs = out;
    proof {
        assert(pairs@.to_multiset() =~= orig.to_multiset()) by {
            broadcast use vstd::seq_lib::group_to_multiset_ensures;

            assert(Seq::<Pair>::empty().to_multiset() =~= Multiset::<Pair>::empty());
        }
        lemma_sorted_unique(pairs@, orig.sort_by(pair_leq()), pair_leq());
    }
}

/// The words a pair sequence is hashed over: identifier then bond order,
/// pair by pair.
pub open spec fn encode_pairs(s: Seq<Pair>) -> Seq<u64>
    decreases s.len(),
{
    if s.len() == 0 {
        Seq::empty()
    } else {
        encode_pairs(s.drop_last()) + seq![s.last().atom, s.last().bond as u64]
    }
}

/// The canonical hash of an environment: the pairs in canonical order,
/// encoded and hashed.
pub open spec fn spec_pairs_to_hash(s: Seq<Pair>) -> u64 {
    spec_hash_64(encode_pairs(s.sort_by(pair_leq())))
}

/// Hash an atom's environment, insensitive to the order the pairs were
/// collected in.
pub fn pairs_to_hash(pairs: &Vec<Pair>) -> (r: HashBaseType)
    ensures
        r == spec_pairs_to_hash(pairs@),
{
    let mut sorted_pairs: Vec<Pair> = Vec::new();
    let mut i: usize = 0;
    while i < pairs.len()
        invariant
            0 <= i <= pairs@.len(),
            sorted_pairs@ =~= pairs@.take(i as int),
        decreases pairs@.len() - i,
    {
        sorted_pairs.push(pairs[i]);
        i += 1;
    }
    proof {
        assert(sorted_pairs@ =~= pairs@);
    }
    sort_pairs(&mut sorted_pairs);
    let mut words: Vec<u64> = Vec::new();
    let mut k: usize = 0;
    while k < sorted_pairs.len()
        invariant
            0 <= k <= sorted_pairs@.len(),
            words@ =~= encode_pairs(sorted_pairs@.take(k as int)),
        decreases sorted_pairs@.len() - k,
    {
        words.push(sorted_pairs[k].atom);
        words.push(sorted_pairs[k].bond as u64);
        proof {
            assert(sorted_pairs@.take(k + 1).drop_last() =~= sorted_pairs@.take(k as int));
            assert(sorted_pairs@.take(k + 1).last() == sorted_pairs@[k as int]);
        }
        k += 1;
    }
    proof {
        assert(sorted_pairs@.take(sorted_pairs@.len() as int) =~= sorted_pairs@);
    }
    hash_64(&words)
}

/// Two environments with the same multiset of pairs hash identically,
/// whatever order the pairs were supplied in.
pub proof fn lemma_canonical_pair_hashing(s1: Seq<Pair>, s2: Seq<Pair>)
    requires
        s1.to_multiset() == s2.to_multiset(),
    ensures
        spec_pairs_to_hash(s1) == spec_pairs_to_hash(s2),
{
    lemma_pair_leq_total();
    s1.lemma_sort_by_ensures(pair_leq());
    s2.lemma_sort_by_ensures(pair_leq());
    lemma_sorted_unique(s1.sort_by(pair_leq()), s2.sort_by(pair_leq()), pair_leq());
}

} // verus!
