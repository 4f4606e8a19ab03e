//! The read-only molecular graph the fingerprint algorithm consumes.
//!
//! The algorithm only ever queries a molecule: the atoms with their intrinsic
//! chemical properties, and for each atom the bonds to its neighbours. Both
//! are held as plain values, so the whole query surface is visible to the
//! verifier. Parsing a textual molecule notation into this shape is the
//! business of the surrounding program, not of this library.

use vstd::prelude::*;

verus! {

/// Stereochemical parity of a bond. Carried through unchanged; the
/// fingerprint algorithm never reads it.
#[derive(Clone, Copy, PartialEq, Eq, Structural, Debug)]
pub enum Parity {
    Positive,
    Negative,
}

/// A half-edge of the molecular graph: one bond as seen from one atom.
#[derive(Clone, Copy, PartialEq, Eq, Structural, Debug)]
pub struct Bond {
    /// Number of electrons shared in the bond (twice the bond order).
    pub electrons: u8,
    /// Stereochemical parity, if any.
    pub parity: Option<Parity>,
    /// Index of the atom at the far end.
    pub tid: usize,
    /// Index of the bond itself in the molecule's bond table.
    pub idx: usize,
}

impl Bond {
    pub fn new(electrons: u8, parity: Option<Parity>, tid: usize, idx: usize) -> (r: Self)
        ensures
            r == (Bond { electrons, parity, tid, idx }),
    {
        Self { electrons, parity, tid, idx }
    }

    /// The bond order: electron count over two, fractional orders truncated.
    pub fn order(&self) -> (r: u8)
        ensures
            r == self.electrons / 2,
    {
        self.electrons / 2
    }
}

/// One atom's intrinsic properties, as far as the fingerprint reads them.
#[derive(Clone, Copy, PartialEq, Eq, Structural, Debug)]
pub struct Atom {
    /// Atomic number of the element.
    pub atomic_number: u8,
    /// Valence electron count of the element.
    pub valence_electrons: u8,
    /// Explicit plus implicit hydrogen count.
    pub hydrogens: u8,
    /// Formal charge.
    pub charge: i8,
}

/// A molecular graph with dense atom indices `0 .. atoms.len()`.
pub struct Molecule {
    /// The atoms, indexed by atom id.
    pub atoms: Vec<Atom>,
    /// For each atom, the bonds to its neighbours.
    pub adjacency: Vec<Vec<Bond>>,
}

impl Molecule {
    /// The graph is well formed: one adjacency row per atom, and every
    /// neighbour index names an atom.
    pub open spec fn wf(&self) -> bool {
        &&& self.adjacency@.len() == self.atoms@.len()
        &&& forall|i: int, k: int|
            0 <= i < self.adjacency@.len() && 0 <= k < self.adjacency@[i]@.len()
                ==> (#[trigger] self.adjacency@[i]@[k]).tid < self.atoms@.len()
    }

    /// Number of atoms in the molecule.
    pub fn atom_count(&self) -> (r: usize)
        ensures
            r == self.atoms@.len(),
    {
        self.atoms.len()
    }
}

} // verus!
