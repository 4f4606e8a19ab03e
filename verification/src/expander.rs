//! The iterative expander: the radius-bounded relabeling loop.
//!
//! At depth 0 every atom is seeded with a feature derived from its invariant
//! alone. At each deeper level an atom's environment is rebuilt from its
//! neighbours' previous-depth identifiers and the connecting bond orders,
//! canonicalized, hashed, and submitted to the registry together with the
//! bonds the new feature spans; the returned hash becomes the atom's
//! identifier for the next depth. The whole run is mirrored by a
//! mathematical model, so the returned fingerprint set is pinned down as a
//! function of the graph and the radius alone.

use vstd::prelude::*;
use crate::atom::{invariant_identifier, spec_atom_invariant, spec_atom_invariants};
use crate::hash::HashBaseType;
use crate::molecule::Molecule;
use crate::pairs::{spec_pairs_to_hash, Pair};
use crate::registry::{
    add_feature, extended_bonds, find_by_fingerprint, find_cov_idx, fv, lemma_find_cov_props,
    spec_bond_id, submit_model, vec_contains_u128, BondId, BondSet, ECFPFeature, EcfpError,
    GFeature, RegistryState,
};

verus! {

broadcast use vstd::set::group_set_axioms, vstd::prelude::Seq::lemma_push_to_set_commute;

/// The whole run's state: the registry, the identifiers driving the present
/// depth, and the identifiers collected for the next depth.
pub ghost struct RunState {
    pub reg: RegistryState,
    pub idents: Seq<u64>,
    pub next: Seq<u64>,
}

/// The pair list an atom contributes at a depth: at depth 0 its own
/// identifier with the sentinel bond order 0, deeper its neighbours'
/// identifiers with the connecting bond orders.
pub open spec fn atom_pairs(m: Molecule, idents: Seq<u64>, sid: int, depth: u8) -> Seq<Pair> {
    if depth == 0 {
        seq![Pair { atom: idents[sid], bond: 0u8 }]
    } else {
        Seq::new(
            m.adjacency@[sid]@.len(),
            |k: int|
                Pair {
                    atom: idents[m.adjacency@[sid]@[k].tid as int],
                    bond: m.adjacency@[sid]@[k].electrons / 2,
                },
        )
    }
}

/// The identifiers of the bonds incident to an atom; empty at depth 0,
/// where no traversal has happened yet.
pub open spec fn atom_incident_bonds(m: Molecule, sid: int, depth: u8) -> Set<u128> {
    if depth == 0 {
        Set::empty()
    } else {
        Seq::new(
            m.adjacency@[sid]@.len(),
            |k: int| spec_bond_id(sid, m.adjacency@[sid]@[k].tid as int),
        ).to_set()
    }
}

/// One atom's submission at one depth.
pub open spec fn step_atom(m: Molecule, st: RunState, depth: u8, sid: int) -> Result<
    RunState,
    EcfpError,
> {
    match submit_model(
        st.reg,
        atom_pairs(m, st.idents, sid, depth),
        atom_incident_bonds(m, sid, depth),
        depth,
    ) {
        Ok((reg2, h)) => Ok(RunState { reg: reg2, idents: st.idents, next: st.next.update(sid, h) }),
        Err(e) => Err(e),
    }
}

/// Process the atoms from `sid` on at one depth.
pub open spec fn run_atoms(m: Molecule, st: RunState, depth: u8, sid: int) -> Result<
    RunState,
    EcfpError,
>
    decreases m.atoms@.len() - sid,
{
    if sid < 0 || sid >= m.atoms@.len() {
        Ok(st)
    } else {
        match step_atom(m, st, depth, sid) {
            Ok(st2) => run_atoms(m, st2, depth, sid + 1),
            Err(e) => Err(e),
        }
    }
}

/// Close one depth: the batch is appended to the accepted features
/// wholesale, and the identifiers collected for the next depth take over.
pub open spec fn roll(st: RunState) -> RunState {
    RunState {
        reg: RegistryState {
            accepted: st.reg.accepted + st.reg.current,
            current: Seq::empty(),
        },
        idents: st.next,
        next: st.next,
    }
}

/// Process the depths from `depth` up to and including `radius`.
pub open spec fn run_depths(m: Molecule, st: RunState, depth: int, radius: u8) -> Result<
    Seq<GFeature>,
    EcfpError,
>
    decreases radius - depth + 1,
{
    if depth < 0 || depth > radius {
        Ok(st.reg.accepted)
    } else {
        match run_atoms(m, st, depth as u8, 0) {
            Ok(st2) => run_depths(m, roll(st2), depth + 1, radius),
            Err(e) => Err(e),
        }
    }
}

/// The state a run starts from: an empty registry and the atom invariants
/// as identifiers.
pub open spec fn initial_state(m: Molecule) -> RunState {
    RunState {
        reg: RegistryState { accepted: Seq::empty(), current: Seq::empty() },
        idents: spec_atom_invariants(m),
        next: spec_atom_invariants(m),
    }
}

/// The features a whole run accepts.
pub open spec fn spec_run(m: Molecule, radius: u8) -> Result<Seq<GFeature>, EcfpError> {
    run_depths(m, initial_state(m), 0, radius)
}

/// The fingerprints of a feature list, read as a set.
pub open spec fn fingerprint_set(fs: Seq<GFeature>) -> Set<u64> {
    fs.map_values(|f: GFeature| f.fingerprint).to_set()
}

/// The fingerprint set a whole run produces.
pub open spec fn spec_fingerprints(m: Molecule, radius: u8) -> Result<Set<u64>, EcfpError> {
    match spec_run(m, radius) {
        Ok(fs) => Ok(fingerprint_set(fs)),
        Err(e) => Err(e),
    }
}

/// Whether some feature in the list carries the fingerprint.
pub open spec fn has_fp(fs: Seq<GFeature>, h: u64) -> bool {
    exists|k: int| 0 <= k < fs.len() && fs[k].fingerprint == h
}

/// No two features with the same non-empty bond coverage sit at different
/// depths.
pub open spec fn cov_unique(fs: Seq<GFeature>) -> bool {
    forall|j: int, k: int|
        0 <= j < fs.len() && 0 <= k < fs.len() && (#[trigger] fs[j]).bonds == (
        #[trigger] fs[k]).bonds && fs[j].bonds != Set::<u128>::empty() ==> fs[j].depth
            == fs[k].depth
}

/// No feature of the current batch shares its non-empty coverage with an
/// accepted feature.
pub open spec fn cross_ok(acc: Seq<GFeature>, cur: Seq<GFeature>) -> bool {
    forall|j: int, k: int|
        0 <= j < cur.len() && 0 <= k < acc.len() && (#[trigger] cur[j]).bonds != Set::<
            u128,
        >::empty() ==> cur[j].bonds != (#[trigger] acc[k]).bonds
}

/// The registry discipline that holds while depth `d` is being processed:
/// everything accepted is shallower than `d`, the batch sits at `d`, no two
/// accepted features share a non-empty coverage across depths, and the batch
/// shares no non-empty coverage with the accepted features.
pub open spec fn depth_inv(st: RunState, d: int) -> bool {
    &&& forall|i: int| 0 <= i < st.reg.accepted.len() ==> (#[trigger] st.reg.accepted[i]).depth < d
    &&& forall|i: int| 0 <= i < st.reg.current.len() ==> (#[trigger] st.reg.current[i]).depth == d
    &&& cov_unique(st.reg.accepted)
    &&& cross_ok(st.reg.accepted, st.reg.current)
}

proof fn lemma_find_fp_exists(fs: Seq<GFeature>, id: u64)
    ensures
        find_by_fingerprint(fs, id) is Some ==> has_fp(fs, id),
    decreases fs.len(),
{
    if fs.len() > 0 && fs[0].fingerprint != id {
        lemma_find_fp_exists(fs.drop_first(), id);
        if find_by_fingerprint(fs.drop_first(), id) is Some {
            let k = choose|k: int|
                0 <= k < fs.drop_first().len() && fs.drop_first()[k].fingerprint == id;
            assert(fs[k + 1].fingerprint == id);
        }
    }
}

/// While the accepted features are all shallower than the depth being
/// processed, a submission cannot fail, never touches the accepted features,
/// and only ever appends to the batch.
proof fn lemma_submit_step(st: RegistryState, pairs: Seq<Pair>, bonds0: Set<u128>, d: u8)
    requires
        forall|i: int| 0 <= i < st.accepted.len() ==> (#[trigger] st.accepted[i]).depth < d,
        forall|i: int| 0 <= i < st.current.len() ==> (#[trigger] st.current[i]).depth == d,
        cov_unique(st.accepted),
        cross_ok(st.accepted, st.current),
    ensures
        submit_model(st, pairs, bonds0, d) is Ok,
        ({
            let (st2, h) = submit_model(st, pairs, bonds0, d)->Ok_0;
            &&& h == spec_pairs_to_hash(pairs)
            &&& st2.accepted == st.accepted
            &&& st.current.len() <= st2.current.len()
            &&& (forall|j: int|
                0 <= j < st.current.len() ==> #[trigger] st2.current[j] == st.current[j])
            &&& (forall|i: int| 0 <= i < st2.current.len() ==> (#[trigger] st2.current[i]).depth == d)
            &&& cross_ok(st.accepted, st2.current)
        }),
{
    let bonds = extended_bonds(st.accepted, pairs, bonds0);
    let hash = spec_pairs_to_hash(pairs);
    let newf = GFeature { fingerprint: hash, bonds: bonds, depth: d };
    if find_by_fingerprint(st.current, hash) is Some {
    } else if bonds == Set::<u128>::empty() {
    } else {
        lemma_find_cov_props(st.accepted, bonds);
        match find_cov_idx(st.accepted, bonds) {
            None => {
                assert(cross_ok(st.accepted, st.current.push(newf)));
            },
            Some(j) => {
                assert(st.accepted[j].depth < d);
            },
        }
    }
}

/// Running the remaining atoms of one depth preserves the registry
/// discipline, never fails, never touches the accepted features, and only
/// appends to the batch.
proof fn lemma_run_atoms_inv(m: Molecule, st: RunState, d: u8, sid: int)
    requires
        depth_inv(st, d as int),
    ensures
        run_atoms(m, st, d, sid) is Ok,
        ({
            let st2 = run_atoms(m, st, d, sid)->Ok_0;
            &&& st2.reg.accepted == st.reg.accepted
            &&& st2.idents == st.idents
            &&& depth_inv(st2, d as int)
            &&& st.reg.current.len() <= st2.reg.current.len()
            &&& (forall|j: int|
                0 <= j < st.reg.current.len() ==> #[trigger] st2.reg.current[j]
                    == st.reg.current[j])
        }),
    decreases m.atoms@.len() - sid,
{
    if 0 <= sid < m.atoms@.len() {
        lemma_submit_step(
            st.reg,
            atom_pairs(m, st.idents, sid, d),
            atom_incident_bonds(m, sid, d),
            d,
        );
        let (reg2, h) = submit_model(
            st.reg,
            atom_pairs(m, st.idents, sid, d),
            atom_incident_bonds(m, sid, d),
            d,
        )->Ok_0;
        let st1 = RunState { reg: reg2, idents: st.idents, next: st.next.update(sid, h) };
        assert(step_atom(m, st, d, sid) == Ok::<RunState, EcfpError>(st1));
        lemma_run_atoms_inv(m, st1, d, sid + 1);
    }
}

/// Closing a depth keeps the registry discipline, now at the next depth.
proof fn lemma_roll_inv(st: RunState, d: int)
    requires
        depth_inv(st, d),
    ensures
        depth_inv(roll(st), d + 1),
{
    let acc = st.reg.accepted;
    let cur = st.reg.current;
    let all = acc + cur;
    assert forall|j: int, k: int|
        0 <= j < all.len() && 0 <= k < all.len() && (#[trigger] all[j]).bonds == (
        #[trigger] all[k]).bonds && all[j].bonds != Set::<u128>::empty() implies all[j].depth
        == all[k].depth by {
        if j < acc.len() && k >= acc.len() {
            assert(all[k] == cur[k - acc.len()]);
            assert(cur[k - acc.len()].bonds != Set::<u128>::empty());
            assert(false);
        }
        if j >= acc.len() && k < acc.len() {
            assert(all[j] == cur[j - acc.len()]);
            assert(false);
        }
    }
}

/// Running the remaining depths under the registry discipline never fails,
/// keeps every accepted fingerprint to the end, and ends with no two
/// features of different depths sharing a non-empty coverage.
proof fn lemma_run_depths_inv(m: Molecule, st: RunState, depth: int, radius: u8)
    requires
        0 <= depth,
        depth_inv(st, depth),
    ensures
        run_depths(m, st, depth, radius) is Ok,
        ({
            let fs = run_depths(m, st, depth, radius)->Ok_0;
            &&& cov_unique(fs)
            &&& (forall|h: u64| #[trigger] has_fp(st.reg.accepted, h) ==> has_fp(fs, h))
        }),
    decreases radius - depth + 1,
{
    if depth > radius {
    } else {
        lemma_run_atoms_inv(m, st, depth as u8, 0);
        let st2 = run_atoms(m, st, depth as u8, 0)->Ok_0;
        lemma_roll_inv(st2, depth);
        lemma_run_depths_inv(m, roll(st2), depth + 1, radius);
        let fs = run_depths(m, roll(st2), depth + 1, radius)->Ok_0;
        assert forall|h: u64| #[trigger] has_fp(st.reg.accepted, h) implies has_fp(fs, h) by {
            let k = choose|k: int|
                0 <= k < st.reg.accepted.len() && st.reg.accepted[k].fingerprint == h;
            assert(roll(st2).reg.accepted[k] == st.reg.accepted[k]);
            assert(has_fp(roll(st2).reg.accepted, h));
        }
    }
}

/// The fingerprint every atom contributes at depth 0: the hash of the
/// single-pair environment built from its invariant.
pub open spec fn depth0_fingerprint(m: Molecule, i: int) -> u64 {
    spec_pairs_to_hash(seq![Pair { atom: spec_atom_invariant(m, i), bond: 0u8 }])
}

/// During depth 0 the accepted list is empty, so every atom's seed
/// fingerprint ends up in the batch.
proof fn lemma_depth0_seeds(m: Molecule, st: RunState, sid: int)
    requires
        0 <= sid,
        st.reg.accepted == Seq::<GFeature>::empty(),
        st.idents == spec_atom_invariants(m),
        forall|i: int| 0 <= i < st.reg.current.len() ==> (#[trigger] st.reg.current[i]).depth == 0,
    ensures
        run_atoms(m, st, 0, sid) is Ok,
        ({
            let st2 = run_atoms(m, st, 0, sid)->Ok_0;
            &&& st2.reg.accepted == Seq::<GFeature>::empty()
            &&& (forall|i: int|
                0 <= i < st2.reg.current.len() ==> (#[trigger] st2.reg.current[i]).depth == 0)
            &&& (forall|h: u64| #[trigger] has_fp(st.reg.current, h) ==> has_fp(st2.reg.current, h))
            &&& (forall|i: int|
                sid <= i < m.atoms@.len() ==> has_fp(
                    st2.reg.current,
                    #[trigger] depth0_fingerprint(m, i),
                ))
        }),
    decreases m.atoms@.len() - sid,
{
    assert(depth_inv(st, 0));
    if 0 <= sid < m.atoms@.len() {
        let pairs = atom_pairs(m, st.idents, sid, 0);
        let bonds0 = atom_incident_bonds(m, sid, 0);
        let hash = spec_pairs_to_hash(pairs);
        lemma_submit_step(st.reg, pairs, bonds0, 0);
        let (reg2, h) = submit_model(st.reg, pairs, bonds0, 0)->Ok_0;
        let st1 = RunState { reg: reg2, idents: st.idents, next: st.next.update(sid, h) };
        assert(step_atom(m, st, 0, sid) == Ok::<RunState, EcfpError>(st1));
        assert(pairs =~= seq![Pair { atom: spec_atom_invariant(m, sid), bond: 0u8 }]);
        assert(hash == depth0_fingerprint(m, sid));
        let bonds = extended_bonds(st.reg.accepted, pairs, bonds0);
        if find_by_fingerprint(st.reg.current, hash) is Some {
            lemma_find_fp_exists(st.reg.current, hash);
            let k = choose|k: int|
                0 <= k < st.reg.current.len() && st.reg.current[k].fingerprint == hash;
            assert(reg2.current[k] == st.reg.current[k]);
            assert(has_fp(reg2.current, hash));
        } else if bonds == Set::<u128>::empty() {
            assert(reg2.current == st.reg.current.push(
                GFeature { fingerprint: hash, bonds: bonds, depth: 0 },
            ));
            assert(reg2.current[st.reg.current.len() as int].fingerprint == hash);
            assert(has_fp(reg2.current, hash));
        } else {
            assert(find_cov_idx(st.reg.accepted, bonds) is None);
            assert(reg2.current == st.reg.current.push(
                GFeature { fingerprint: hash, bonds: bonds, depth: 0 },
            ));
            assert(reg2.current[st.reg.current.len() as int].fingerprint == hash);
            assert(has_fp(reg2.current, hash));
        }
        lemma_depth0_seeds(m, st1, sid + 1);
        let st2 = run_atoms(m, st1, 0, sid + 1)->Ok_0;
        assert forall|hh: u64| #[trigger] has_fp(st.reg.current, hh) implies has_fp(
            st1.reg.current,
            hh,
        ) by {
            let k = choose|k: int|
                0 <= k < st.reg.current.len() && st.reg.current[k].fingerprint == hh;
            assert(st1.reg.current[k] == st.reg.current[k]);
        }
        assert(has_fp(st2.reg.current, depth0_fingerprint(m, sid)));
    }
}

/// A whole run never surfaces the internal-inconsistency error: within a
/// depth, duplicates are caught by hash before coverage is ever compared,
/// and across depths the accepted features are always strictly shallower
/// than the candidates.
pub proof fn lemma_run_ok(m: Molecule, radius: u8)
    ensures
        spec_run(m, radius) is Ok,
{
    assert(depth_inv(initial_state(m), 0));
    lemma_run_depths_inv(m, initial_state(m), 0, radius);
}

/// Supersession correctness: in the final feature set, no two features
/// discovered at different depths span the same non-empty set of bonds —
/// whenever coverages collided across depths, only the shallower feature
/// survived.
pub proof fn lemma_supersession_final(m: Molecule, radius: u8)
    ensures
        spec_run(m, radius) matches Ok(fs) && cov_unique(fs),
{
    assert(depth_inv(initial_state(m), 0));
    lemma_run_depths_inv(m, initial_state(m), 0, radius);
}

/// Depth-0 completeness: the output contains the seed fingerprint of every
/// atom, so at least one fingerprint per distinct atom-invariant value.
pub proof fn lemma_depth0_completeness(m: Molecule, radius: u8, i: int)
    requires
        0 <= i < m.atoms@.len(),
    ensures
        spec_fingerprints(m, radius) matches Ok(s) && s.contains(depth0_fingerprint(m, i)),
{
    let st0 = initial_state(m);
    lemma_depth0_seeds(m, st0, 0);
    let st2 = run_atoms(m, st0, 0, 0)->Ok_0;
    assert(depth_inv(st2, 0));
    lemma_roll_inv(st2, 0);
    lemma_run_depths_inv(m, roll(st2), 1, radius);
    let fs = run_depths(m, roll(st2), 1, radius)->Ok_0;
    assert(spec_run(m, radius) == run_depths(m, roll(st2), 1, radius));
    let fp = depth0_fingerprint(m, i);
    assert(has_fp(st2.reg.current, fp));
    assert forall|h: u64| #[trigger] has_fp(st2.reg.current, h) implies has_fp(
        roll(st2).reg.accepted,
        h,
    ) by {
        let k = choose|k: int|
            0 <= k < st2.reg.current.len() && st2.reg.current[k].fingerprint == h;
        assert(roll(st2).reg.accepted[st2.reg.accepted.len() + k]
            == st2.reg.current[k]);
    }
    assert(has_fp(fs, fp));
    let k = choose|k: int| 0 <= k < fs.len() && fs[k].fingerprint == fp;
    assert(fs.map_values(|f: GFeature| f.fingerprint)[k] == fp);
    assert(fingerprint_set(fs).contains(fp));
}

/// Determinism: the fingerprint set is a function of the graph and the
/// radius alone, so any two runs on the same inputs agree as sets, whatever
/// order either returned its fingerprints in.
pub proof fn lemma_determinism(m: Molecule, radius: u8, r1: Seq<u64>, r2: Seq<u64>)
    requires
        spec_fingerprints(m, radius) == Ok::<Set<u64>, EcfpError>(r1.to_set()),
        spec_fingerprints(m, radius) == Ok::<Set<u64>, EcfpError>(r2.to_set()),
    ensures
        r1.to_set() == r2.to_set(),
{
}

fn vec_contains_u64(v: &Vec<u64>, x: u64) -> (r: bool)
    ensures
        r == v@.contains(x),
{
    let mut i: usize = 0;
    while i < v.len()
        invariant
            0 <= i <= v@.len(),
            forall|k: int| 0 <= k < i ==> v@[k] != x,
        decreases v@.len() - i,
    {
        if v[i] == x {
            return true;
        }
        i += 1;
    }
    false
}

fn copy_u64_vec(v: &Vec<u64>) -> (r: Vec<u64>)
    ensures
        r@ == v@,
{
    let mut r: Vec<u64> = Vec::new();
    let mut i: usize = 0;
    while i < v.len()
        invariant
            0 <= i <= v@.len(),
            r@ =~= v@.take(i as int),
        decreases v@.len() - i,
    {
        r.push(v[i]);
        i += 1;
    }
    proof {
        assert(v@.take(v@.len() as int) =~= v@);
    }
    r
}

/// Run the whole fingerprint expansion on a molecule.
///
/// The result is the set of fingerprints of every feature the registry
/// accepted at any depth up to and including `radius`, without duplicates.
/// The error carries the registry's internal-consistency violation, should
/// one ever surface.
pub fn mol_to_features(molecule: &Molecule, radius: u8) -> (r: Result<Vec<HashBaseType>, EcfpError>)
    requires
        molecule.wf(),
    ensures
        match r {
            Ok(v) => spec_fingerprints(*molecule, radius) == Ok::<Set<u64>, EcfpError>(v@.to_set())
                && v@.no_duplicates(),
            Err(e) => spec_fingerprints(*molecule, radius) == Err::<Set<u64>, EcfpError>(e),
        },
{
    let ghost m: Molecule = *molecule;
    let mut features: Vec<ECFPFeature> = Vec::new();
    let mut molecular_identifiers: Vec<u64> = invariant_identifier(molecule);
    let mut next_identifiers: Vec<u64> = copy_u64_vec(&molecular_identifiers);
    let n = molecule.atom_count();
    let mut depth: usize = 0;
    let ghost mut dstate: RunState = initial_state(m);
    proof {
        assert(fv(features@) =~= Seq::<GFeature>::empty());
    }
    while depth <= radius as usize
        invariant
            molecule.wf(),
            m == *molecule,
            n == m.atoms@.len(),
            depth <= radius as usize + 1,
            molecular_identifiers@.len() == n,
            next_identifiers@.len() == n,
            dstate == (RunState {
                reg: RegistryState { accepted: fv(features@), current: Seq::<GFeature>::empty() },
                idents: molecular_identifiers@,
                next: next_identifiers@,
            }),
            run_depths(m, dstate, depth as int, radius) == spec_run(m, radius),
        decreases radius as int + 1 - depth,
    {
        let mut current_features: Vec<ECFPFeature> = Vec::new();
        let ghost astate0: RunState = dstate;
        proof {
            assert(fv(current_features@) =~= Seq::<GFeature>::empty());
        }
        let mut sid: usize = 0;
        while sid < n
            invariant
                molecule.wf(),
                m == *molecule,
                n == m.atoms@.len(),
                depth <= radius as usize,
                radius as usize <= 255,
                sid <= n,
                molecular_identifiers@.len() == n,
                next_identifiers@.len() == n,
                astate0 == dstate,
                run_depths(m, dstate, depth as int, radius) == spec_run(m, radius),
                run_atoms(
                    m,
                    RunState {
                        reg: RegistryState {
                            accepted: fv(features@),
                            current: fv(current_features@),
                        },
                        idents: molecular_identifiers@,
                        next: next_identifiers@,
                    },
                    depth as u8,
                    sid as int,
                ) == run_atoms(m, astate0, depth as u8, 0),
            decreases n - sid,
        {
            let ghost st_now: RunState = RunState {
                reg: RegistryState { accepted: fv(features@), current: fv(current_features@) },
                idents: molecular_identifiers@,
                next: next_identifiers@,
            };
            let mut pairs: Vec<Pair> = Vec::new();
            let mut current_bonds: Vec<u128> = Vec::new();
            if depth == 0 {
                pairs.push(Pair { atom: molecular_identifiers[sid], bond: 0 });
                proof {
                    assert(pairs@ =~= atom_pairs(m, molecular_identifiers@, sid as int, 0));
                    assert(current_bonds@.to_set() =~= atom_incident_bonds(m, sid as int, 0));
                }
            } else {
                let ghost ap: Seq<Pair> = atom_pairs(
                    m,
                    molecular_identifiers@,
                    sid as int,
                    depth as u8,
                );
                let ghost ib: Seq<u128> = Seq::new(
                    m.adjacency@[sid as int]@.len(),
                    |k: int| spec_bond_id(sid as int, m.adjacency@[sid as int]@[k].tid as int),
                );
                let row_len = molecule.adjacency[sid].len();
                let mut k: usize = 0;
                while k < row_len
                    invariant
                        molecule.wf(),
                        m == *molecule,
                        n == m.atoms@.len(),
                        sid < n,
                        molecular_identifiers@.len() == n,
                        row_len == m.adjacency@[sid as int]@.len(),
                        k <= row_len,
                        1 <= depth <= 255,
                        ap == atom_pairs(m, molecular_identifiers@, sid as int, depth as u8),
                        ap.len() == row_len,
                        ib.len() == row_len,
                        ib == Seq::new(
                            m.adjacency@[sid as int]@.len(),
                            |j: int| spec_bond_id(
                                sid as int,
                                m.adjacency@[sid as int]@[j].tid as int,
                            ),
                        ),
                        pairs@ =~= ap.take(k as int),
                        current_bonds@.to_set() == ib.take(k as int).to_set(),
                    decreases row_len - k,
                {
                    let bond = &molecule.adjacency[sid][k];
                    let tid = bond.tid;
                    let bond_type = bond.order();
                    pairs.push(Pair { atom: molecular_identifiers[tid], bond: bond_type });
                    let bid = BondId::new(sid, tid);
                    if !vec_contains_u128(&current_bonds, bid.0) {
                        current_bonds.push(bid.0);
                    }
                    proof {
                        assert(ap.take(k + 1) =~= ap.take(k as int).push(ap[k as int]));
                        assert(ib.take(k + 1) =~= ib.take(k as int).push(ib[k as int]));
                        assert(current_bonds@.to_set() =~= ib.take(k + 1).to_set());
                    }
                    k += 1;
                }
                proof {
                    assert(ap.take(row_len as int) =~= ap);
                    assert(ib.take(row_len as int) =~= ib);
                    assert(current_bonds@.to_set() == atom_incident_bonds(
                        m,
                        sid as int,
                        depth as u8,
                    ));
                }
            }
            let bs = BondSet { bonds: current_bonds, depth: depth as u8 };
            let ghost bonds0: Set<u128> = atom_incident_bonds(m, sid as int, depth as u8);
            match add_feature(&mut features, &mut current_features, &pairs, bs) {
                Ok(h) => {
                    next_identifiers[sid] = h;
                    proof {
                        let d8: u8 = depth as u8;
                        let st_new = RunState {
                            reg: RegistryState {
                                accepted: fv(features@),
                                current: fv(current_features@),
                            },
                            idents: molecular_identifiers@,
                            next: next_identifiers@,
                        };
                        assert(step_atom(m, st_now, d8, sid as int) == Ok::<RunState, EcfpError>(
                            st_new,
                        ));
                        assert(run_atoms(m, st_now, d8, sid as int) == run_atoms(
                            m,
                            st_new,
                            d8,
                            sid as int + 1,
                        ));
                    }
                },
                Err(e) => {
                    proof {
                        assert(step_atom(m, st_now, depth as u8, sid as int) == Err::<
                            RunState,
                            EcfpError,
                        >(e));
                        assert(run_atoms(m, st_now, depth as u8, sid as int) == Err::<
                            RunState,
                            EcfpError,
                        >(e));
                        assert(run_depths(m, dstate, depth as int, radius) == Err::<
                            Seq<GFeature>,
                            EcfpError,
                        >(e));
                    }
                    return Err(e);
                },
            }
            sid += 1;
        }
        let ghost st_end: RunState = RunState {
            reg: RegistryState { accepted: fv(features@), current: fv(current_features@) },
            idents: molecular_identifiers@,
            next: next_identifiers@,
        };
        proof {
            assert(run_atoms(m, st_end, depth as u8, sid as int) == Ok::<RunState, EcfpError>(
                st_end,
            ));
            assert(run_atoms(m, astate0, depth as u8, 0) == Ok::<RunState, EcfpError>(st_end));
        }
        features.append(&mut current_features);
        molecular_identifiers = copy_u64_vec(&next_identifiers);
        proof {
            assert(fv(features@) =~= st_end.reg.accepted + st_end.reg.current);
            dstate = roll(st_end);
        }
        depth += 1;
    }
    proof {
        assert(run_depths(m, dstate, depth as int, radius) == Ok::<Seq<GFeature>, EcfpError>(
            fv(features@),
        ));
    }
    let ghost accepted: Seq<GFeature> = fv(features@);
    let mut out: Vec<u64> = Vec::new();
    let mut i: usize = 0;
    while i < features.len()
        invariant
            i <= features@.len(),
            accepted == fv(features@),
            out@.to_set() == fingerprint_set(accepted.take(i as int)),
            out@.no_duplicates(),
        decreases features@.len() - i,
    {
        let h = features[i].fingerprint;
        proof {
            assert(accepted.take(i + 1) =~= accepted.take(i as int).push(accepted[i as int]));
            assert(accepted.take(i + 1).map_values(|f: GFeature| f.fingerprint) =~= accepted.take(
                i as int,
            ).map_values(|f: GFeature| f.fingerprint).push(h));
            assert(fingerprint_set(accepted.take(i + 1)) =~= fingerprint_set(
                accepted.take(i as int),
            ).insert(h));
        }
        if !vec_contains_u64(&out, h) {
            out.push(h);
        } else {
            proof {
                assert(out@.to_set().contains(h));
                assert(out@.to_set() =~= out@.to_set().insert(h));
            }
        }
        i += 1;
    }
    proof {
        assert(accepted.take(accepted.len() as int) =~= accepted);
        assert(spec_fingerprints(m, radius) == Ok::<Set<u64>, EcfpError>(out@.to_set()));
    }
    Ok(out)
}

} // verus!
