//! Folding a fingerprint set into a fixed-size bit vector.
//!
//! Each fingerprint names one bit position, its value modulo the vector's
//! length; collisions from the fold are accepted. The bit vector itself is
//! the `bitvec` crate's, held opaquely and seen by the verifier only through
//! the `bits_of` name and the trusted calls below.

use vstd::prelude::*;
use crate::hash::HashBaseType;

verus! {

/// A folded fingerprint bit vector, backed by the `bitvec` crate.
#[verifier::external_body]
pub struct FingerprintBits {
    bits: bitvec::vec::BitVec,
}

/// The bits a bit vector holds, in index order.
pub uninterp spec fn bits_of(bv: FingerprintBits) -> Seq<bool>;

/// Relies on bitvec's `BitVec::repeat`: a bit vector of `len` copies of
/// `bit`.
#[verifier::external_body]
fn bitvec_repeat(bit: bool, len: usize) -> (r: FingerprintBits)
    ensures
        bits_of(r) == Seq::new(len as nat, |i: int| bit),
{
    FingerprintBits { bits: bitvec::vec::BitVec::repeat(bit, len) }
}

/// Relies on bitvec's `BitSlice::set`: writes one bit in place; it panics
/// only on an index at or beyond the length.
#[verifier::external_body]
fn bitvec_set(bv: &mut FingerprintBits, index: usize, value: bool)
    requires
        index < bits_of(*old(bv)).len(),
    ensures
        bits_of(*final(bv)) == bits_of(*old(bv)).update(index as int, value),
{
    bv.bits.set(index, value);
}

/// Relies on bitvec's `BitVec::len`: the number of bits held.
#[verifier::external_body]
pub fn bitvect_len(bv: &FingerprintBits) -> (r: usize)
    ensures
        r == bits_of(*bv).len(),
{
    bv.bits.len()
}

/// Relies on bitvec's `BitSlice` indexing: reads one bit; it panics only on
/// an index at or beyond the length.
#[verifier::external_body]
pub fn bitvect_get(bv: &FingerprintBits, index: usize) -> (r: bool)
    requires
        index < bits_of(*bv).len(),
    ensures
        r == bits_of(*bv)[index as int],
{
    bv.bits[index]
}

/// Fold a fingerprint list into a bit vector of `size` bits: bit `b` is set
/// exactly when some fingerprint equals `b` modulo `size`.
pub fn hash_to_bitvect(hash: &Vec<HashBaseType>, size: usize) -> (r: FingerprintBits)
    requires
        1 <= size,
    ensures
        bits_of(r).len() == size,
        forall|b: int|
            0 <= b < size ==> ((#[trigger] bits_of(r)[b]) <==> exists|k: int|
                0 <= k < hash@.len() && (#[trigger] hash@[k]) as int % size as int == b),
{
    let mut bitvect = bitvec_repeat(false, size);
    let mut i: usize = 0;
    while i < hash.len()
        invariant
            1 <= size,
            0 <= i <= hash@.len(),
            bits_of(bitvect).len() == size,
            forall|b: int|
                0 <= b < size ==> ((#[trigger] bits_of(bitvect)[b]) <==> exists|k: int|
                    0 <= k < i && (#[trigger] hash@[k]) as int % size as int == b),
        decreases hash@.len() - i,
    {
        let idx: usize = (hash[i] % (size as u64)) as usize;
        let ghost prev: Seq<bool> = bits_of(bitvect);
        bitvec_set(&mut bitvect, idx, true);
        proof {
            assert forall|b: int| 0 <= b < size implies ((#[trigger] bits_of(bitvect)[b]) <==> exists|
                k: int,
            | 0 <= k < i + 1 && (#[trigger] hash@[k]) as int % size as int == b) by {
                if b == idx {
                    assert(hash@[i as int] as int % size as int == b);
                } else {
                    assert(bits_of(bitvect)[b] == prev[b]);
                    assert forall|k: int|
                        0 <= k < i + 1 && (#[trigger] hash@[k]) as int % size as int == b implies 0
                        <= k < i by {
                        if k == i {
                            assert(false);
                        }
                    }
                }
            }
        }
        i += 1;
    }
    bitvect
}

} // verus!
