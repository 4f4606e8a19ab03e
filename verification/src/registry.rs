//! The feature registry: bond coverage, duplicate elimination and the
//! depth/hash supersession rule.
//!
//! A candidate feature carries the hash of its canonicalized environment and
//! the set of graph bonds its substructure spans. Within one depth a hash is
//! accepted at most once. Across depths, two features whose bond sets are
//! exactly equal describe the same substructure, and only one survives: at
//! equal discovery depth the lower hash, otherwise the shallower feature.

use vstd::prelude::*;
use crate::hash::HashBaseType;
use crate::pairs::{pairs_to_hash, spec_pairs_to_hash, Pair};

verus! {

broadcast use vstd::set::group_set_axioms, vstd::prelude::Seq::lemma_push_to_set_commute;

/// The bonds a feature's substructure spans, and the depth the feature was
/// created at.
pub struct BondSet {
    /// Identifiers of the spanned bonds; order and multiplicity carry no
    /// meaning.
    pub bonds: Vec<u128>,
    /// The iteration depth the feature was created at.
    pub depth: u8,
}

/// One accepted or candidate feature: an environment hash together with the
/// bonds it spans.
pub struct ECFPFeature {
    /// The fingerprint hash of the canonicalized environment.
    pub fingerprint: HashBaseType,
    /// The bonds the feature's substructure spans.
    pub bondset: BondSet,
}

/// The mathematical shadow of a feature: the bond list read as a set.
pub ghost struct GFeature {
    pub fingerprint: u64,
    pub bonds: Set<u128>,
    pub depth: u8,
}

impl View for ECFPFeature {
    type V = GFeature;

    open spec fn view(&self) -> GFeature {
        GFeature {
            fingerprint: self.fingerprint,
            bonds: self.bondset.bonds@.to_set(),
            depth: self.bondset.depth,
        }
    }
}

/// The views of a whole feature list.
pub open spec fn fv(s: Seq<ECFPFeature>) -> Seq<GFeature> {
    s.map_values(|f: ECFPFeature| f@)
}

/// The registry's state: features accepted at earlier depths, and the batch
/// collected at the depth being processed.
pub ghost struct RegistryState {
    pub accepted: Seq<GFeature>,
    pub current: Seq<GFeature>,
}

/// The failure a submission can surface: the same hash with the same bond
/// coverage was accepted at the same depth before, so either the hash
/// collided across genuinely different substructures or the caller broke the
/// registry's discipline.
#[derive(Clone, Copy, PartialEq, Eq, Structural, Debug)]
pub enum EcfpError {
    InternalInconsistency { hash: u64, depth: u8 },
}

/// An order-independent, collision-free identifier of one graph edge: the
/// smaller endpoint in the upper 64 bits, the larger in the lower.
pub open spec fn spec_bond_id(a: int, b: int) -> u128 {
    if a <= b {
        (a * 0x1_0000_0000_0000_0000 + b) as u128
    } else {
        (b * 0x1_0000_0000_0000_0000 + a) as u128
    }
}

/// Identifier of the edge between two atoms.
pub struct BondId(pub u128);

impl BondId {
    /// Combine two atom indices into the edge's identifier, independent of
    /// the order the endpoints are given in.
    pub fn new(sid: usize, tid: usize) -> (r: Self)
        ensures
            r.0 == spec_bond_id(sid as int, tid as int),
    {
        if sid <= tid {
            BondId((sid as u128) * 0x1_0000_0000_0000_0000u128 + (tid as u128))
        } else {
            BondId((tid as u128) * 0x1_0000_0000_0000_0000u128 + (sid as u128))
        }
    }
}

/// The bond identifier of edge (a, b) equals that of edge (b, a).
pub proof fn lemma_bond_id_symmetry(a: int, b: int)
    ensures
        spec_bond_id(a, b) == spec_bond_id(b, a),
{
}

/// The first feature in `fs` whose fingerprint is `id`.
pub open spec fn find_by_fingerprint(fs: Seq<GFeature>, id: u64) -> Option<GFeature>
    decreases fs.len(),
{
    if fs.len() == 0 {
        None
    } else if fs[0].fingerprint == id {
        Some(fs[0])
    } else {
        find_by_fingerprint(fs.drop_first(), id)
    }
}

pub proof fn lemma_find_fp_at(fs: Seq<GFeature>, id: u64, j: int)
    requires
        0 <= j < fs.len(),
        fs[j].fingerprint == id,
        forall|k: int| 0 <= k < j ==> fs[k].fingerprint != id,
    ensures
        find_by_fingerprint(fs, id) == Some(fs[j]),
    decreases j,
{
    if j > 0 {
        lemma_find_fp_at(fs.drop_first(), id, j - 1);
    }
}

pub proof fn lemma_find_fp_none(fs: Seq<GFeature>, id: u64)
    requires
        forall|k: int| 0 <= k < fs.len() ==> fs[k].fingerprint != id,
    ensures
        find_by_fingerprint(fs, id) is None,
    decreases fs.len(),
{
    if fs.len() > 0 {
        lemma_find_fp_none(fs.drop_first(), id);
    }
}

/// The union of the bond coverage of every feature in `fs` whose
/// fingerprint is `id`.
pub open spec fn matching_bonds(fs: Seq<GFeature>, id: u64) -> Set<u128>
    decreases fs.len(),
{
    if fs.len() == 0 {
        Set::empty()
    } else if fs.last().fingerprint == id {
        matching_bonds(fs.drop_last(), id).union(fs.last().bonds)
    } else {
        matching_bonds(fs.drop_last(), id)
    }
}

/// Fold the bond coverage of the already-accepted features into `base`:
/// each pair contributes the coverage of every accepted feature whose
/// fingerprint matches the pair's identifier.
pub open spec fn extended_bonds(fs: Seq<GFeature>, pairs: Seq<Pair>, base: Set<u128>) -> Set<
    u128,
>
    decreases pairs.len(),
{
    if pairs.len() == 0 {
        base
    } else {
        extended_bonds(fs, pairs.drop_last(), base).union(matching_bonds(fs, pairs.last().atom))
    }
}

/// The index of the first feature in `fs` whose bond set equals `bonds`.
pub open spec fn find_cov_idx(fs: Seq<GFeature>, bonds: Set<u128>) -> Option<int>
    decreases fs.len(),
{
    if fs.len() == 0 {
        None
    } else if fs[0].bonds == bonds {
        Some(0int)
    } else {
        match find_cov_idx(fs.drop_first(), bonds) {
            Some(j) => Some(j + 1),
            None => None,
        }
    }
}

pub proof fn lemma_find_cov_at(fs: Seq<GFeature>, bonds: Set<u128>, j: int)
    requires
        0 <= j < fs.len(),
        fs[j].bonds == bonds,
        forall|k: int| 0 <= k < j ==> fs[k].bonds != bonds,
    ensures
        find_cov_idx(fs, bonds) == Some(j),
    decreases j,
{
    if j > 0 {
        lemma_find_cov_at(fs.drop_first(), bonds, j - 1);
    }
}

pub proof fn lemma_find_cov_none(fs: Seq<GFeature>, bonds: Set<u128>)
    requires
        forall|k: int| 0 <= k < fs.len() ==> fs[k].bonds != bonds,
    ensures
        find_cov_idx(fs, bonds) is None,
    decreases fs.len(),
{
    if fs.len() > 0 {
        lemma_find_cov_none(fs.drop_first(), bonds);
    }
}

pub proof fn lemma_find_cov_props(fs: Seq<GFeature>, bonds: Set<u128>)
    ensures
        match find_cov_idx(fs, bonds) {
            Some(j) => 0 <= j < fs.len() && fs[j].bonds == bonds && (forall|k: int|
                0 <= k < j ==> fs[k].bonds != bonds),
            None => forall|k: int| 0 <= k < fs.len() ==> fs[k].bonds != bonds,
        },
    decreases fs.len(),
{
    if fs.len() > 0 && fs[0].bonds != bonds {
        lemma_find_cov_props(fs.drop_first(), bonds);
        match find_cov_idx(fs.drop_first(), bonds) {
            Some(j) => {
                assert(fs.drop_first()[j] == fs[j + 1]);
                assert forall|k: int| 0 <= k < j + 1 implies fs[k].bonds != bonds by {
                    if k > 0 {
                        assert(fs.drop_first()[k - 1] == fs[k]);
                    }
                }
            },
            None => {
                assert forall|k: int| 0 <= k < fs.len() implies fs[k].bonds != bonds by {
                    if k > 0 {
                        assert(fs.drop_first()[k - 1] == fs[k]);
                    }
                }
            },
        }
    }
}

/// What one submission does to the registry: the candidate's coverage is
/// extended by the coverage of every already-accepted feature its pairs
/// refer to, a hash already seen at this depth is dropped, a coverage-free
/// candidate is always kept, and a candidate whose coverage equals an
/// accepted feature's is resolved by depth, then by hash.
pub open spec fn submit_model(
    st: RegistryState,
    pairs: Seq<Pair>,
    bonds0: Set<u128>,
    depth: u8,
) -> Result<(RegistryState, u64), EcfpError> {
    let bonds = extended_bonds(st.accepted, pairs, bonds0);
    let hash = spec_pairs_to_hash(pairs);
    let newf = GFeature { fingerprint: hash, bonds: bonds, depth: depth };
    if find_by_fingerprint(st.current, hash) is Some {
        Ok((st, hash))
    } else if bonds == Set::<u128>::empty() {
        Ok((RegistryState { accepted: st.accepted, current: st.current.push(newf) }, hash))
    } else {
        match find_cov_idx(st.accepted, bonds) {
            None => Ok(
                (RegistryState { accepted: st.accepted, current: st.current.push(newf) }, hash),
            ),
            Some(j) => {
                let f = st.accepted[j];
                if f.depth == depth {
                    if f.fingerprint > hash {
                        Ok(
                            (
                                RegistryState {
                                    accepted: st.accepted.remove(j),
                                    current: st.current.push(newf),
                                },
                                hash,
                            ),
                        )
                    } else if f.fingerprint == hash {
                        Err(EcfpError::InternalInconsistency { hash, depth })
                    } else {
                        Ok((st, hash))
                    }
                } else if f.depth > depth {
                    Ok(
                        (
                            RegistryState {
                                accepted: st.accepted.remove(j),
                                current: st.current.push(newf),
                            },
                            hash,
                        ),
                    )
                } else {
                    Ok((st, hash))
                }
            },
        }
    }
}

/// When a candidate's coverage equals an accepted feature's and the depths
/// differ, the shallower of the two survives: an accepted deeper feature is
/// removed in favour of the candidate, and a candidate deeper than the
/// accepted feature is dropped.
pub proof fn lemma_supersession_rule(
    st: RegistryState,
    pairs: Seq<Pair>,
    bonds0: Set<u128>,
    depth: u8,
    j: int,
)
    requires
        find_by_fingerprint(st.current, spec_pairs_to_hash(pairs)) is None,
        extended_bonds(st.accepted, pairs, bonds0) != Set::<u128>::empty(),
        find_cov_idx(st.accepted, extended_bonds(st.accepted, pairs, bonds0))
            == Some(j),
        0 <= j < st.accepted.len(),
        st.accepted[j].depth != depth,
    ensures
        st.accepted[j].depth > depth ==> submit_model(st, pairs, bonds0, depth) == Ok::<
            _,
            EcfpError,
        >(
            (
                RegistryState {
                    accepted: st.accepted.remove(j),
                    current: st.current.push(
                        GFeature {
                            fingerprint: spec_pairs_to_hash(pairs),
                            bonds: extended_bonds(st.accepted, pairs, bonds0),
                            depth: depth,
                        },
                    ),
                },
                spec_pairs_to_hash(pairs),
            ),
        ),
        st.accepted[j].depth < depth ==> submit_model(st, pairs, bonds0, depth) == Ok::<
            _,
            EcfpError,
        >((st, spec_pairs_to_hash(pairs))),
{
}

pub(crate) fn vec_contains_u128(v: &Vec<u128>, x: u128) -> (r: bool)
    ensures
        r == v@.contains(x),
{
    let mut i: usize = 0;
    while i < v.len()
        invariant
            0 <= i <= v@.len(),
            forall|k: int| 0 <= k < i ==> v@[k] != x,
        decreases v@.len() - i,
    {
        if v[i] == x {
            return true;
        }
        i += 1;
    }
    false
}

fn bonds_subset(a: &Vec<u128>, b: &Vec<u128>) -> (r: bool)
    ensures
        r == forall|k: int| 0 <= k < a@.len() ==> b@.contains(#[trigger] a@[k]),
{
    let mut i: usize = 0;
    while i < a.len()
        invariant
            0 <= i <= a@.len(),
            forall|k: int| 0 <= k < i ==> b@.contains(#[trigger] a@[k]),
        decreases a@.len() - i,
    {
        if !vec_contains_u128(b, a[i]) {
            return false;
        }
        i += 1;
    }
    true
}

/// Whether two bond lists name the same set of bonds.
fn bond_sets_equal(a: &Vec<u128>, b: &Vec<u128>) -> (r: bool)
    ensures
        r == (a@.to_set() == b@.to_set()),
{
    let ab = bonds_subset(a, b);
    let ba = bonds_subset(b, a);
    if ab && ba {
        proof {
            assert(a@.to_set() =~= b@.to_set());
        }
        true
    } else {
        proof {
            if !ab {
                let k = choose|k: int| 0 <= k < a@.len() && !b@.contains(a@[k]);
                assert(a@.to_set().contains(a@[k]));
            } else {
                let k = choose|k: int| 0 <= k < b@.len() && !a@.contains(b@[k]);
                assert(b@.to_set().contains(b@[k]));
            }
        }
        false
    }
}

/// Search a feature list for one whose bond set equals `bonds`; the result
/// mirrors `find_cov_idx` on the list's views.
fn find_cov_index(fs: &Vec<ECFPFeature>, bonds: &Vec<u128>) -> (r: Option<usize>)
    ensures
        match r {
            Some(j) => j < fs@.len() && fv(fs@)[j as int].bonds == bonds@.to_set() && (forall|
                k: int,
            | 0 <= k < j ==> fv(fs@)[k].bonds != bonds@.to_set()),
            None => forall|k: int| 0 <= k < fs@.len() ==> fv(fs@)[k].bonds != bonds@.to_set(),
        },
{
    let mut i: usize = 0;
    while i < fs.len()
        invariant
            0 <= i <= fs@.len(),
            forall|k: int| 0 <= k < i ==> fv(fs@)[k].bonds != bonds@.to_set(),
        decreases fs@.len() - i,
    {
        if bond_sets_equal(&fs[i].bondset.bonds, bonds) {
            return Some(i);
        }
        i += 1;
    }
    None
}

/// Search a feature list for a fingerprint; the result mirrors
/// `find_by_fingerprint` on the list's views.
fn find_feature_index(fs: &Vec<ECFPFeature>, id: u64) -> (r: Option<usize>)
    ensures
        match r {
            Some(j) => j < fs@.len() && fv(fs@)[j as int].fingerprint == id && (forall|k: int|
                0 <= k < j ==> fv(fs@)[k].fingerprint != id),
            None => forall|k: int| 0 <= k < fs@.len() ==> fv(fs@)[k].fingerprint != id,
        },
{
    let mut i: usize = 0;
    while i < fs.len()
        invariant
            0 <= i <= fs@.len(),
            forall|k: int| 0 <= k < i ==> fv(fs@)[k].fingerprint != id,
        decreases fs@.len() - i,
    {
        if fs[i].fingerprint == id {
            return Some(i);
        }
        i += 1;
    }
    None
}

/// Extend the candidate's bond coverage by the coverage of every accepted
/// feature whose fingerprint one of the pairs refers to.
pub fn all_extend_bondset(features: &Vec<ECFPFeature>, pairs: &Vec<Pair>, bondset: &mut BondSet)
    ensures
        final(bondset).depth == old(bondset).depth,
        final(bondset).bonds@.to_set() == extended_bonds(
            fv(features@),
            pairs@,
            old(bondset).bonds@.to_set(),
        ),
{
    let ghost allv: Seq<GFeature> = fv(features@);
    let ghost base: Set<u128> = bondset.bonds@.to_set();
    let mut i: usize = 0;
    while i < pairs.len()
        invariant
            0 <= i <= pairs@.len(),
            allv == fv(features@),
            bondset.depth == old(bondset).depth,
            bondset.bonds@.to_set() == extended_bonds(allv, pairs@.take(i as int), base),
        decreases pairs@.len() - i,
    {
        let id = pairs[i].atom;
        let ghost ebefore: Set<u128> = extended_bonds(allv, pairs@.take(i as int), base);
        proof {
            assert(bondset.bonds@.to_set() =~= ebefore.union(matching_bonds(allv.take(0), id)));
        }
        let mut j: usize = 0;
        while j < features.len()
            invariant
                0 <= j <= features@.len(),
                allv == fv(features@),
                id == pairs@[i as int].atom,
                bondset.depth == old(bondset).depth,
                bondset.bonds@.to_set() == ebefore.union(matching_bonds(allv.take(j as int), id)),
            decreases features@.len() - j,
        {
            let ghost mbefore: Set<u128> = matching_bonds(allv.take(j as int), id);
            if features[j].fingerprint == id {
                let fb = &features[j].bondset.bonds;
                let ghost fbonds: Seq<u128> = fb@;
                proof {
                    assert(fbonds.take(0).to_set() =~= Set::<u128>::empty());
                    assert(bondset.bonds@.to_set() =~= ebefore.union(mbefore).union(
                        fbonds.take(0).to_set(),
                    ));
                }
                let mut t: usize = 0;
                while t < fb.len()
                    invariant
                        0 <= t <= fbonds.len(),
                        fbonds == fb@,
                        bondset.depth == old(bondset).depth,
                        bondset.bonds@.to_set() == ebefore.union(mbefore).union(
                            fbonds.take(t as int).to_set(),
                        ),
                    decreases fbonds.len() - t,
                {
                    let b = fb[t];
                    if !vec_contains_u128(&bondset.bonds, b) {
                        bondset.bonds.push(b);
                    }
                    proof {
                        assert(fbonds.take(t + 1) =~= fbonds.take(t as int).push(fbonds[t as int]));
                        assert(fbonds.take(t + 1).to_set() =~= fbonds.take(t as int).to_set().insert(
                            fbonds[t as int],
                        ));
                        assert(bondset.bonds@.to_set() =~= ebefore.union(mbefore).union(
                            fbonds.take(t + 1).to_set(),
                        ));
                    }
                    t += 1;
                }
                proof {
                    assert(fbonds.take(fbonds.len() as int) =~= fbonds);
                    assert(allv.take(j + 1).drop_last() =~= allv.take(j as int));
                    assert(allv.take(j + 1).last() == allv[j as int]);
                    assert(allv[j as int].bonds == fbonds.to_set());
                    assert(matching_bonds(allv.take(j + 1), id) == mbefore.union(fbonds.to_set()));
                    assert(bondset.bonds@.to_set() =~= ebefore.union(
                        matching_bonds(allv.take(j + 1), id),
                    ));
                }
            } else {
                proof {
                    assert(allv.take(j + 1).drop_last() =~= allv.take(j as int));
                    assert(allv.take(j + 1).last() == allv[j as int]);
                    assert(matching_bonds(allv.take(j + 1), id) == mbefore);
                }
            }
            j += 1;
        }
        proof {
            assert(allv.take(allv.len() as int) =~= allv);
            assert(pairs@.take(i + 1).drop_last() =~= pairs@.take(i as int));
            assert(pairs@.take(i + 1).last() == pairs@[i as int]);
            assert(bondset.bonds@.to_set() =~= extended_bonds(allv, pairs@.take(i + 1), base));
        }
        i += 1;
    }
    proof {
        assert(pairs@.take(pairs@.len() as int) =~= pairs@);
    }
}

/// Submit one candidate feature to the registry.
///
/// `features` holds everything accepted at earlier depths; `current_features`
/// the batch of the depth being processed. The returned hash is the
/// candidate's, whether or not it was inserted; the error surfaces the
/// internal-consistency violation of an identical hash with identical
/// coverage at the same depth.
pub fn add_feature(
    features: &mut Vec<ECFPFeature>,
    current_features: &mut Vec<ECFPFeature>,
    pairs: &Vec<Pair>,
    bondset: BondSet,
) -> (r: Result<HashBaseType, EcfpError>)
    ensures
        ({
            let st = RegistryState { accepted: fv(old(features)@), current: fv(old(current_features)@) };
            match submit_model(st, pairs@, bondset.bonds@.to_set(), bondset.depth) {
                Ok((st2, h)) => r == Ok::<HashBaseType, EcfpError>(h) && fv(final(features)@)
                    == st2.accepted && fv(final(current_features)@) == st2.current,
                Err(e) => r == Err::<HashBaseType, EcfpError>(e) && final(features)@ == old(features)@
                    && final(current_features)@ == old(current_features)@,
            }
        }),
{
    let ghost st = RegistryState {
        accepted: fv(old(features)@),
        current: fv(old(current_features)@),
    };
    let ghost bonds0: Set<u128> = bondset.bonds@.to_set();
    let depth = bondset.depth;
    let mut bondset = bondset;
    all_extend_bondset(features, pairs, &mut bondset);
    let ghost bonds: Set<u128> = extended_bonds(st.accepted, pairs@, bonds0);
    let hash = pairs_to_hash(pairs);

    match find_feature_index(current_features, hash) {
        Some(j) => {
            proof {
                lemma_find_fp_at(st.current, hash, j as int);
            }
            return Ok(hash);
        },
        None => {
            proof {
                lemma_find_fp_none(st.current, hash);
            }
        },
    }

    if bondset.bonds.len() == 0 {
        proof {
            assert(bonds =~= Set::<u128>::empty());
        }
        current_features.push(ECFPFeature { fingerprint: hash, bondset });
        proof {
            lemma_fv_push_any(old(current_features)@, current_features@);
        }
        return Ok(hash);
    }
    proof {
        assert(bondset.bonds@.to_set().contains(bondset.bonds@[0]));
        assert(bonds != Set::<u128>::empty());
    }

    let found = find_cov_index(features, &bondset.bonds);

    match found {
        None => {
            proof {
                lemma_find_cov_none(st.accepted, bonds);
            }
            current_features.push(ECFPFeature { fingerprint: hash, bondset });
            proof {
                lemma_fv_push_any(old(current_features)@, current_features@);
            }
            Ok(hash)
        },
        Some(j) => {
            proof {
                lemma_find_cov_at(st.accepted, bonds, j as int);
            }
            let fd = features[j].bondset.depth;
            let ffp = features[j].fingerprint;
            if fd == depth {
                if ffp > hash {
                    features.remove(j);
                    current_features.push(ECFPFeature { fingerprint: hash, bondset });
                    proof {
                        lemma_fv_remove(old(features)@, j as int);
                        lemma_fv_push_any(old(current_features)@, current_features@);
                    }
                    Ok(hash)
                } else if ffp == hash {
                    Err(EcfpError::InternalInconsistency { hash, depth })
                } else {
                    Ok(hash)
                }
            } else if fd > depth {
                features.remove(j);
                current_features.push(ECFPFeature { fingerprint: hash, bondset });
                proof {
                    lemma_fv_remove(old(features)@, j as int);
                    lemma_fv_push_any(old(current_features)@, current_features@);
                }
                Ok(hash)
            } else {
                Ok(hash)
            }
        },
    }
}

/// After a push, the views of the new list are the old views plus the view
/// of the last element.
pub proof fn lemma_fv_push_any(s: Seq<ECFPFeature>, t: Seq<ECFPFeature>)
    requires
        t == s.push(t.last()),
    ensures
        fv(t) == fv(s).push(t.last()@),
{
    assert(fv(t) =~= fv(s).push(t.last()@));
}

pub proof fn lemma_fv_remove(s: Seq<ECFPFeature>, j: int)
    requires
        0 <= j < s.len(),
    ensures
        fv(s.remove(j)) == fv(s).remove(j),
{
    assert(fv(s.remove(j)) =~= fv(s).remove(j));
}

} // verus!
