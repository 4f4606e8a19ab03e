//! Extended-connectivity fingerprints for molecular graphs.
//!
//! The library derives a numbering-independent invariant for every atom of a
//! molecule, then iteratively relabels each atom from its neighbours' labels
//! up to a bounded radius. Every label produced on the way is a candidate
//! feature; a registry keeps the accepted ones, resolving candidates that
//! span the same set of bonds by depth and hash value. The result is the set
//! of accepted feature hashes, which can be folded into a fixed-size bit
//! vector for similarity comparison.

pub mod atom;
pub mod bitvect;
pub mod expander;
pub mod hash;
pub mod molecule;
pub mod pairs;
pub mod registry;

use vstd::prelude::*;

verus! {

} // verus!
