//! A stable 64-bit hash over sequences of words.
//!
//! Every identifier the fingerprint algorithm produces comes from this one
//! function, so it only has to be deterministic and well mixed; the exact
//! algorithm is not load-bearing. It multiplies by an odd constant after
//! folding in each word, so for a fixed suffix the hash is injective in the
//! first word.

use vstd::prelude::*;

verus! {

/// The type every fingerprint and identifier is carried in.
pub type HashBaseType = u64;

pub const FNV_OFFSET: u64 = 0xcbf29ce484222325;

pub const FNV_PRIME: u64 = 0x100000001b3;

/// One mixing step: fold `v` into the state `h`.
pub open spec fn spec_hash_step(h: u64, v: u64) -> u64 {
    (((h ^ v) as nat * (FNV_PRIME as nat)) % 0x1_0000_0000_0000_0000) as u64
}

/// The hash of a whole sequence of words, folded left to right.
pub open spec fn spec_hash_64(s: Seq<u64>) -> u64
    decreases s.len(),
{
    if s.len() == 0 {
        FNV_OFFSET
    } else {
        spec_hash_step(spec_hash_64(s.drop_last()), s.last())
    }
}

fn hash_step(h: u64, v: u64) -> (r: u64)
    ensures
        r == spec_hash_step(h, v),
{
    let x: u128 = (h ^ v) as u128;
    let prod: u128 = x * (FNV_PRIME as u128);
    (prod % 0x1_0000_0000_0000_0000u128) as u64
}

/// Hash a sequence of 64-bit words into one 64-bit value.
pub fn hash_64(values: &Vec<u64>) -> (r: HashBaseType)
    ensures
        r == spec_hash_64(values@),
{
    let mut h: u64 = FNV_OFFSET;
    let mut i: usize = 0;
    while i < values.len()
        invariant
            0 <= i <= values@.len(),
            h == spec_hash_64(values@.take(i as int)),
        decreases values@.len() - i,
    {
        proof {
            assert(values@.take(i + 1).drop_last() =~= values@.take(i as int));
        }
        h = hash_step(h, values[i]);
        i += 1;
    }
    proof {
        assert(values@.take(values@.len() as int) =~= values@);
    }
    h
}

} // verus!
