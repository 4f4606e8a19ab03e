use ecfp::atom::invariant_identifier;
use ecfp::bitvect::{bitvect_get, bitvect_len, hash_to_bitvect};
use ecfp::expander::mol_to_features;
use ecfp::hash::hash_64;
use ecfp::molecule::{Atom, Bond, Molecule};
use ecfp::pairs::{pairs_to_hash, sort_pairs, Pair};
use ecfp::registry::{add_feature, BondId, BondSet, ECFPFeature, EcfpError};

fn atom(atomic_number: u8) -> Atom {
    Atom { atomic_number, valence_electrons: 4, hydrogens: 0, charge: 0 }
}

fn single_bond(tid: usize, idx: usize) -> Bond {
    Bond::new(2, None, tid, idx)
}

/// A 3-atom path X-Y-Z with three distinct elements and single bonds.
fn path_molecule() -> Molecule {
    Molecule {
        atoms: vec![atom(6), atom(7), atom(8)],
        adjacency: vec![
            vec![single_bond(1, 0)],
            vec![single_bond(0, 0), single_bond(2, 1)],
            vec![single_bond(1, 1)],
        ],
    }
}

/// A triangle of three identical atoms with identical single bonds.
fn triangle_molecule() -> Molecule {
    Molecule {
        atoms: vec![atom(6), atom(6), atom(6)],
        adjacency: vec![
            vec![single_bond(1, 0), single_bond(2, 2)],
            vec![single_bond(0, 0), single_bond(2, 1)],
            vec![single_bond(0, 2), single_bond(1, 1)],
        ],
    }
}

const FNV_OFFSET: u64 = 0xcbf29ce484222325;
const FNV_PRIME: u64 = 0x100000001b3;

fn reference_hash(words: &[u64]) -> u64 {
    let mut h = FNV_OFFSET;
    for w in words {
        h = (h ^ w).wrapping_mul(FNV_PRIME);
    }
    h
}

#[test]
fn hash_of_empty_sequence_is_offset() {
    assert_eq!(hash_64(&vec![]), FNV_OFFSET);
}

#[test]
fn hash_matches_folded_formula() {
    assert_eq!(hash_64(&vec![42]), reference_hash(&[42]));
    assert_eq!(hash_64(&vec![1, 2, 3]), reference_hash(&[1, 2, 3]));
    assert_ne!(hash_64(&vec![1, 2]), hash_64(&vec![2, 1]));
}

#[test]
fn sort_pairs_orders_by_bond_then_atom() {
    let mut pairs = vec![
        Pair { atom: 9, bond: 2 },
        Pair { atom: 5, bond: 1 },
        Pair { atom: 3, bond: 2 },
        Pair { atom: 5, bond: 0 },
    ];
    sort_pairs(&mut pairs);
    let flat: Vec<(u64, u8)> = pairs.iter().map(|p| (p.atom, p.bond)).collect();
    assert_eq!(flat, vec![(5, 0), (5, 1), (3, 2), (9, 2)]);
}

#[test]
fn pairs_to_hash_matches_sorted_encoding() {
    let pairs = vec![Pair { atom: 5, bond: 2 }, Pair { atom: 3, bond: 1 }];
    assert_eq!(pairs_to_hash(&pairs), reference_hash(&[3, 1, 5, 2]));
}

#[test]
fn canonical_pair_hashing_is_order_insensitive() {
    let p1 = vec![
        Pair { atom: 11, bond: 1 },
        Pair { atom: 7, bond: 2 },
        Pair { atom: 11, bond: 2 },
    ];
    let p2 = vec![
        Pair { atom: 11, bond: 2 },
        Pair { atom: 11, bond: 1 },
        Pair { atom: 7, bond: 2 },
    ];
    assert_eq!(pairs_to_hash(&p1), pairs_to_hash(&p2));
}

#[test]
fn empty_pair_list_is_valid() {
    assert_eq!(pairs_to_hash(&vec![]), FNV_OFFSET);
}

#[test]
fn bond_id_is_symmetric() {
    assert_eq!(BondId::new(3, 7).0, BondId::new(7, 3).0);
    assert_eq!(BondId::new(0, 0).0, 0);
    assert_eq!(BondId::new(3, 7).0, 3u128 * (1u128 << 64) + 7u128);
}

#[test]
fn bond_ids_of_distinct_edges_differ() {
    assert_ne!(BondId::new(1, 2).0, BondId::new(12, 0).0);
    assert_ne!(BondId::new(1, 23).0, BondId::new(12, 3).0);
}

#[test]
fn invariants_depend_on_element() {
    let m = path_molecule();
    let ids = invariant_identifier(&m);
    assert_eq!(ids.len(), 3);
    assert_ne!(ids[0], ids[1]);
    assert_ne!(ids[0], ids[2]);
    assert_ne!(ids[1], ids[2]);
}

#[test]
fn invariants_identical_for_identical_environments() {
    let m = triangle_molecule();
    let ids = invariant_identifier(&m);
    assert_eq!(ids[0], ids[1]);
    assert_eq!(ids[1], ids[2]);
}

#[test]
fn scenario_a_path_graph_depth0_has_three_features() {
    let m = path_molecule();
    let fps = mol_to_features(&m, 0).unwrap();
    assert_eq!(fps.len(), 3);
}

#[test]
fn depth0_fingerprints_survive_deeper_runs() {
    let m = path_molecule();
    let ids = invariant_identifier(&m);
    let fps = mol_to_features(&m, 2).unwrap();
    for id in ids {
        let seed = pairs_to_hash(&vec![Pair { atom: id, bond: 0 }]);
        assert!(fps.contains(&seed));
    }
}

#[test]
fn scenario_b_triangle_depth0_collapses_to_one() {
    let m = triangle_molecule();
    let fps = mol_to_features(&m, 0).unwrap();
    assert_eq!(fps.len(), 1);
}

#[test]
fn scenario_b_triangle_depth1_handled_gracefully() {
    let m = triangle_molecule();
    let result = mol_to_features(&m, 1);
    let fps = result.unwrap();
    assert_eq!(fps.len(), 2);
}

#[test]
fn scenario_c_isolated_atom_radius0() {
    let m = Molecule { atoms: vec![atom(6)], adjacency: vec![vec![]] };
    let fps = mol_to_features(&m, 0).unwrap();
    assert_eq!(fps.len(), 1);
}

#[test]
fn scenario_c_depth0_bond_coverage_is_empty() {
    let mut accepted: Vec<ECFPFeature> = Vec::new();
    let mut current: Vec<ECFPFeature> = Vec::new();
    let pairs = vec![Pair { atom: 77, bond: 0 }];
    let r = add_feature(
        &mut accepted,
        &mut current,
        &pairs,
        BondSet { bonds: vec![], depth: 0 },
    );
    assert_eq!(r.unwrap(), pairs_to_hash(&pairs));
    assert_eq!(current.len(), 1);
    assert!(current[0].bondset.bonds.is_empty());
    assert_eq!(current[0].bondset.depth, 0);
}

#[test]
fn repeated_runs_agree() {
    let m = triangle_molecule();
    let mut a = mol_to_features(&m, 2).unwrap();
    let mut b = mol_to_features(&m, 2).unwrap();
    a.sort();
    b.sort();
    assert_eq!(a, b);
}

#[test]
fn output_has_no_duplicates() {
    let m = path_molecule();
    let mut fps = mol_to_features(&m, 2).unwrap();
    let n = fps.len();
    fps.sort();
    fps.dedup();
    assert_eq!(fps.len(), n);
}

#[test]
fn duplicate_hash_within_depth_is_dropped() {
    let mut accepted: Vec<ECFPFeature> = Vec::new();
    let mut current: Vec<ECFPFeature> = Vec::new();
    let pairs = vec![Pair { atom: 5, bond: 1 }];
    add_feature(&mut accepted, &mut current, &pairs, BondSet { bonds: vec![1], depth: 1 })
        .unwrap();
    let r = add_feature(
        &mut accepted,
        &mut current,
        &pairs,
        BondSet { bonds: vec![2], depth: 1 },
    );
    assert_eq!(r.unwrap(), pairs_to_hash(&pairs));
    assert_eq!(current.len(), 1);
}

#[test]
fn shallower_candidate_supersedes_deeper_feature() {
    let mut accepted = vec![ECFPFeature {
        fingerprint: 999,
        bondset: BondSet { bonds: vec![42], depth: 2 },
    }];
    let mut current: Vec<ECFPFeature> = Vec::new();
    let r = add_feature(
        &mut accepted,
        &mut current,
        &vec![],
        BondSet { bonds: vec![42], depth: 1 },
    );
    assert_eq!(r.unwrap(), pairs_to_hash(&vec![]));
    assert!(accepted.is_empty());
    assert_eq!(current.len(), 1);
    assert_eq!(current[0].bondset.depth, 1);
}

#[test]
fn deeper_candidate_is_discarded() {
    let mut accepted = vec![ECFPFeature {
        fingerprint: 999,
        bondset: BondSet { bonds: vec![42], depth: 1 },
    }];
    let mut current: Vec<ECFPFeature> = Vec::new();
    let r = add_feature(
        &mut accepted,
        &mut current,
        &vec![],
        BondSet { bonds: vec![42], depth: 2 },
    );
    assert_eq!(r.unwrap(), pairs_to_hash(&vec![]));
    assert_eq!(accepted.len(), 1);
    assert_eq!(accepted[0].fingerprint, 999);
    assert!(current.is_empty());
}

#[test]
fn equal_depth_keeps_lower_hash() {
    let h = pairs_to_hash(&vec![]);
    let mut accepted = vec![ECFPFeature {
        fingerprint: u64::MAX,
        bondset: BondSet { bonds: vec![42], depth: 1 },
    }];
    let mut current: Vec<ECFPFeature> = Vec::new();
    let r = add_feature(
        &mut accepted,
        &mut current,
        &vec![],
        BondSet { bonds: vec![42], depth: 1 },
    );
    assert_eq!(r.unwrap(), h);
    assert!(accepted.is_empty());
    assert_eq!(current.len(), 1);
    assert_eq!(current[0].fingerprint, h);
}

#[test]
fn equal_depth_discards_higher_hash() {
    let mut accepted = vec![ECFPFeature {
        fingerprint: 0,
        bondset: BondSet { bonds: vec![42], depth: 1 },
    }];
    let mut current: Vec<ECFPFeature> = Vec::new();
    let r = add_feature(
        &mut accepted,
        &mut current,
        &vec![],
        BondSet { bonds: vec![42], depth: 1 },
    );
    assert_eq!(r.unwrap(), pairs_to_hash(&vec![]));
    assert_eq!(accepted.len(), 1);
    assert!(current.is_empty());
}

#[test]
fn identical_hash_and_coverage_at_same_depth_errors() {
    let h = pairs_to_hash(&vec![]);
    let mut accepted = vec![ECFPFeature {
        fingerprint: h,
        bondset: BondSet { bonds: vec![42], depth: 1 },
    }];
    let mut current: Vec<ECFPFeature> = Vec::new();
    let r = add_feature(
        &mut accepted,
        &mut current,
        &vec![],
        BondSet { bonds: vec![42], depth: 1 },
    );
    assert_eq!(r, Err(EcfpError::InternalInconsistency { hash: h, depth: 1 }));
    assert_eq!(accepted.len(), 1);
    assert!(current.is_empty());
}

#[test]
fn coverage_folds_all_matching_features() {
    let mut accepted = vec![
        ECFPFeature { fingerprint: 7, bondset: BondSet { bonds: vec![1], depth: 1 } },
        ECFPFeature { fingerprint: 7, bondset: BondSet { bonds: vec![2], depth: 1 } },
    ];
    let mut current: Vec<ECFPFeature> = Vec::new();
    let pairs = vec![Pair { atom: 7, bond: 1 }];
    add_feature(&mut accepted, &mut current, &pairs, BondSet { bonds: vec![3], depth: 2 })
        .unwrap();
    assert_eq!(accepted.len(), 2);
    assert_eq!(current.len(), 1);
    let mut folded = current[0].bondset.bonds.clone();
    folded.sort();
    assert_eq!(folded, vec![1, 2, 3]);
}

#[test]
fn current_batch_coverage_is_not_folded() {
    let mut accepted: Vec<ECFPFeature> = Vec::new();
    let mut current = vec![ECFPFeature {
        fingerprint: 7,
        bondset: BondSet { bonds: vec![9], depth: 1 },
    }];
    let pairs = vec![Pair { atom: 7, bond: 1 }];
    add_feature(&mut accepted, &mut current, &pairs, BondSet { bonds: vec![3], depth: 1 })
        .unwrap();
    assert_eq!(current.len(), 2);
    assert_eq!(current[1].bondset.bonds, vec![3]);
}

#[test]
fn bitvect_sets_bits_modulo_size() {
    let bv = hash_to_bitvect(&vec![5, 69], 64);
    assert_eq!(bitvect_len(&bv), 64);
    for b in 0..64 {
        assert_eq!(bitvect_get(&bv, b), b == 5);
    }
}

#[test]
fn bitvect_of_empty_input_is_all_zero() {
    let bv = hash_to_bitvect(&vec![], 16);
    assert_eq!(bitvect_len(&bv), 16);
    for b in 0..16 {
        assert!(!bitvect_get(&bv, b));
    }
}

#[test]
fn bitvect_folds_whole_run() {
    let m = path_molecule();
    let fps = mol_to_features(&m, 1).unwrap();
    let bv = hash_to_bitvect(&fps, 32);
    let mut expected = vec![false; 32];
    for fp in &fps {
        expected[(fp % 32) as usize] = true;
    }
    for b in 0..32 {
        assert_eq!(bitvect_get(&bv, b), expected[b]);
    }
}
