//! The atom invariant calculator.
//!
//! Each atom gets a 64-bit identifier derived from properties that do not
//! depend on atom numbering: heavy-neighbour count, valence minus hydrogens,
//! atomic number, formal charge, and hydrogen count. Atoms with identical
//! property tuples get identical identifiers; distinct tuples may collide,
//! and the algorithm does not depend on them not doing so.

use vstd::prelude::*;
use crate::hash::{hash_64, spec_hash_64, HashBaseType};
use crate::molecule::Molecule;

verus! {

/// The words an atom's invariant is hashed over. The two signed components
/// are shifted into non-negative ranges before widening.
pub open spec fn invariant_words(m: Molecule, i: int) -> Seq<u64> {
    seq![
        m.adjacency@[i]@.len() as u64,
        (256 + m.atoms@[i].valence_electrons - m.atoms@[i].hydrogens) as u64,
        m.atoms@[i].atomic_number as u64,
        (m.atoms@[i].charge + 128) as u64,
        m.atoms@[i].hydrogens as u64,
    ]
}

/// The numbering-independent invariant of one atom.
pub open spec fn spec_atom_invariant(m: Molecule, i: int) -> u64 {
    spec_hash_64(invariant_words(m, i))
}

/// The invariants of all atoms, by atom id.
pub open spec fn spec_atom_invariants(m: Molecule) -> Seq<u64> {
    Seq::new(m.atoms@.len(), |i: int| spec_atom_invariant(m, i))
}

/// Compute the invariant identifier of every atom of the molecule.
pub fn invariant_identifier(molecule: &Molecule) -> (r: Vec<HashBaseType>)
    requires
        molecule.wf(),
    ensures
        r@ == spec_atom_invariants(*molecule),
{
    let mut identifiers: Vec<u64> = Vec::new();
    let mut i: usize = 0;
    while i < molecule.atoms.len()
        invariant
            molecule.wf(),
            0 <= i <= molecule.atoms@.len(),
            identifiers@.len() == i,
            forall|j: int| 0 <= j < i ==> identifiers@[j] == spec_atom_invariant(*molecule, j),
        decreases molecule.atoms@.len() - i,
    {
        let atom = molecule.atoms[i];
        let n_neighbours: u64 = molecule.adjacency[i].len() as u64;
        let valence_shifted: u64 = (256 + atom.valence_electrons as u64) - atom.hydrogens as u64;
        let charge_shifted: u64 = (atom.charge as i64 + 128) as u64;
        let words: Vec<u64> = vec![
            n_neighbours,
            valence_shifted,
            atom.atomic_number as u64,
            charge_shifted,
            atom.hydrogens as u64,
        ];
        proof {
            assert(words@ =~= invariant_words(*molecule, i as int));
        }
        let h = hash_64(&words);
        identifiers.push(h);
        i += 1;
    }
    proof {
        assert(identifiers@ =~= spec_atom_invariants(*molecule));
    }
    identifiers
}

} // verus!
