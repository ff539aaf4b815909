//! One simulation instance: lattice state, move collection, histograms and
//! the exact fixed-point energy accumulator, with the per-move incremental
//! updates.

use crate::energy::{
    energy_1000_calculation, energy_input_bounded, spec_site_energy, EnergyInput,
    ENERGY_ENTRY_BOUND,
};
use crate::grid_structure::{grid_wf, GridStructure};
use crate::lattice::{
    cn_consistent, hist_contrib, hist_count, is_nn, lemma_hist_count_bounds,
    lemma_hist_count_drop_excl, lemma_hist_count_member,
    lemma_occ_prefix_bounds, lemma_total_energy_bound, occ_at, occ_ok, spec_cn,
    spec_move_applied, spec_total_energy,
    total_energy_prefix, wf_topology, AtomPosition, MAX_NSITES,
};
use crate::listdict::ListDict;
use vstd::prelude::*;

verus! {

/// The histogram bookkeeping is kept on for the entire run rather than only
/// after the recording cutoff.
pub const SAVE_ENTIRE_SIM: bool = true;

/// Names of the two atom species appearing in structure files.
#[derive(Clone, Default, Debug)]
pub struct AtomNames {
    pub atom: Option<String>,
    pub support: Option<String>,
}

/// The seeds that started one repetition's random number generators.
#[derive(Clone, Debug)]
pub struct Seed {
    pub rust: String,
    pub choose_seed: [u8; 32],
    pub e_number_seed: [u8; 32],
}

/// A legal move `(from, to)`: a metal atom on `from`, an empty adjacent
/// target `to`, and the target keeps more than one occupied neighbor, so
/// the arriving atom cannot detach from the cluster.
pub open spec fn mv_ok(pos: Seq<AtomPosition>, p: (u32, u32)) -> bool {
    &&& occ_at(pos, p.0 as int)
    &&& 0 <= (p.1 as int) < pos.len()
    &&& pos[p.1 as int].occ == 0
    &&& is_nn(pos, p.0 as int, p.1 as int)
    &&& pos[p.1 as int].cn_metal > 1
}

/// The brute-force enumeration of every legal move of a state.
pub open spec fn spec_legal_moves(pos: Seq<AtomPosition>) -> Set<(u32, u32)> {
    Set::new(|p: (u32, u32)| mv_ok(pos, p))
}

/// Both histogram arrays agree with a from-scratch count over the first `n`
/// sites of `pos`, not counting the excluded site.
pub open spec fn hists_anchored(
    cn_dict: Seq<u32>,
    cn_dict_at_supp: Seq<u32>,
    pos: Seq<AtomPosition>,
    n: int,
    excl: int,
) -> bool {
    forall|k: int|
        0 <= k < 13 ==> (#[trigger] cn_dict[k]) as int == hist_count(pos, k, n, excl, false) && (
        cn_dict_at_supp[k]) as int == hist_count(pos, k, n, excl, true)
}

proof fn lemma_hist_count_update_both(
    pos1: Seq<AtomPosition>,
    pos2: Seq<AtomPosition>,
    k: int,
    n: int,
    excl: int,
    t: int,
)
    requires
        pos1.len() == pos2.len(),
        forall|s: int|
            0 <= s < pos1.len() && s != t && s != excl ==> #[trigger] pos2[s] == pos1[s],
    ensures
        hist_count(pos2, k, n, excl, false) == hist_count(pos1, k, n, excl, false) - (
        if 0 <= t < n && t != excl {
            hist_contrib(pos1, t, k, excl, false)
        } else {
            0
        }) + (if 0 <= t < n && t != excl {
            hist_contrib(pos2, t, k, excl, false)
        } else {
            0
        }),
        hist_count(pos2, k, n, excl, true) == hist_count(pos1, k, n, excl, true) - (
        if 0 <= t < n && t != excl {
            hist_contrib(pos1, t, k, excl, true)
        } else {
            0
        }) + (if 0 <= t < n && t != excl {
            hist_contrib(pos2, t, k, excl, true)
        } else {
            0
        }),
{
    crate::lattice::lemma_hist_count_update_excl(pos1, pos2, k, n, excl, false, t);
    crate::lattice::lemma_hist_count_update_excl(pos1, pos2, k, n, excl, true, t);
}

/// After both neighbor sweeps, the state is exactly the move's target
/// state: occupancies swapped and every cached coordination number the
/// from-scratch one of the new occupancy.
proof fn lemma_sweeps_give_target(
    oldpos: Seq<AtomPosition>,
    pos_a: Seq<AtomPosition>,
    posf: Seq<AtomPosition>,
    a: int,
    b: int,
)
    requires
        wf_topology(oldpos),
        occ_ok(oldpos),
        0 <= a < oldpos.len(),
        0 <= b < oldpos.len(),
        a != b,
        oldpos[a].occ == 1,
        oldpos[b].occ == 0,
        pos_a == oldpos.update(a, (AtomPosition { occ: 0, ..oldpos[a] })).update(
            b,
            (AtomPosition { occ: oldpos[a].occ, ..oldpos[b] }),
        ),
        posf.len() == oldpos.len(),
        forall|s: int|
            0 <= s < oldpos.len() ==> (#[trigger] posf[s]).occ == pos_a[s].occ && posf[s].nn
                == pos_a[s].nn && posf[s].nn_support == pos_a[s].nn_support,
        forall|s: int|
            0 <= s < oldpos.len() ==> (#[trigger] posf[s]).cn_metal as int == spec_cn(oldpos, s)
                - crate::lattice::index_count_prefix(oldpos[a].nn@, 12, s)
                + crate::lattice::index_count_prefix(oldpos[b].nn@, 12, s),
    ensures
        posf == spec_move_applied(oldpos, a, b),
        wf_topology(posf),
        occ_ok(posf),
        cn_consistent(posf),
        forall|s: int| 0 <= s < posf.len() ==> (#[trigger] posf[s]).cn_metal <= 12,
{
    let n = oldpos.len() as int;
    let target = spec_move_applied(oldpos, a, b);
    assert forall|s: int| 0 <= s < n implies (#[trigger] posf[s]).cn_metal as int == spec_cn(
        pos_a,
        s,
    ) by {
        crate::lattice::lemma_occ_prefix_change(oldpos, pos_a, oldpos[s].nn@, 12, a, b);
        crate::lattice::lemma_nn_symmetric_indicator(oldpos, s, a);
        crate::lattice::lemma_nn_symmetric_indicator(oldpos, s, b);
    }
    assert forall|s: int| 0 <= s < n implies #[trigger] posf[s] == target[s] by {
        crate::lattice::lemma_occ_prefix_congruent(pos_a, target, pos_a[s].nn@, 12);
    }
    assert(posf =~= target);
    assert forall|s: int| 0 <= s < n implies (#[trigger] posf[s]).cn_metal <= 12 by {
        crate::lattice::lemma_occ_prefix_bounds(pos_a, pos_a[s].nn@, 12);
    }
    assert(wf_topology(posf)) by {
        assert forall|s: int| 0 <= s < n implies crate::lattice::nn_ok(posf, s) by {
            assert(crate::lattice::nn_ok(oldpos, s));
            assert(posf[s].nn == oldpos[s].nn);
        }
        assert forall|s: int, j: int| 0 <= s < n && 0 <= j < 12 implies posf[(
        #[trigger] posf[s].nn@[j]) as int].nn@.contains(s as u32) by {
            assert(posf[s].nn == oldpos[s].nn);
            assert(oldpos[(oldpos[s].nn@[j]) as int].nn@.contains(s as u32));
            assert(crate::lattice::nn_ok(oldpos, s));
            assert(posf[(oldpos[s].nn@[j]) as int].nn == oldpos[(oldpos[s].nn@[j]) as int].nn);
        }
    }
    assert(cn_consistent(posf)) by {
        assert forall|s: int| 0 <= s < n implies (#[trigger] posf[s]).cn_metal as int == spec_cn(
            posf,
            s,
        ) by {
            crate::lattice::lemma_occ_prefix_congruent(pos_a, posf, posf[s].nn@, 12);
            assert(posf[s].nn == pos_a[s].nn);
        }
    }
}

/// A move's legality can change across one applied move only if its target
/// lies in one of the two endpoints' shells: everywhere else, occupancy,
/// adjacency and the target's coordination number are untouched.
#[verifier::rlimit(100)]
#[verifier::spinoff_prover]
proof fn lemma_legality_local(pos: Seq<AtomPosition>, a: int, b: int)
    requires
        wf_topology(pos),
        cn_consistent(pos),
        occ_ok(pos),
        0 <= a < pos.len(),
        0 <= b < pos.len(),
        a != b,
        pos[a].occ == 0,
        pos[b].occ == 1,
        is_nn(pos, a, b),
    ensures
        forall|p: (u32, u32)|
            !pos[a].nn@.contains(p.1) && !pos[b].nn@.contains(p.1) ==> (mv_ok(
                spec_move_applied(pos, b, a),
                p,
            ) == mv_ok(pos, p)),
{
    let n = pos.len() as int;
    let prev = spec_move_applied(pos, b, a);
    assert(pos[b].nn@.contains(a as u32)) by {
        assert(crate::lattice::nn_ok(pos, a));
        let jt = choose|jt: int| 0 <= jt < pos[a].nn@.len() && pos[a].nn@[jt] == b as u32;
        assert(pos[(pos[a].nn@[jt]) as int].nn@.contains(a as u32));
    }
    crate::lattice::lemma_move_cn_facts(pos, b, a);
    assert forall|p: (u32, u32)|
        !pos[a].nn@.contains(p.1) && !pos[b].nn@.contains(p.1) implies (mv_ok(prev, p) == mv_ok(
        pos,
        p,
    )) by {
        let f = p.0 as int;
        let t = p.1 as int;
        if 0 <= t < n {
            assert(t != a) by {
                if t == a {
                    assert(pos[b].nn@.contains(p.1));
                }
            }
            assert(t != b) by {
                if t == b {
                    assert(pos[a].nn@.contains(p.1));
                }
            }
            assert(prev[t].occ == pos[t].occ);
            assert(prev[t].cn_metal == pos[t].cn_metal) by {
                assert(crate::lattice::index_count_prefix(pos[a].nn@, 12, t) == 0);
                assert(crate::lattice::index_count_prefix(pos[b].nn@, 12, t) == 0);
            }
            if 0 <= f < n {
                assert(prev[f].nn == pos[f].nn);
                if f == a {
                    // the source site is empty after the move and its shell
                    // holds only refreshed targets, so the pair is illegal
                    // on both sides
                    assert(!is_nn(pos, f, t));
                } else if f == b {
                    assert(prev[b].occ == 0);
                    assert(!is_nn(pos, f, t)) by {
                        if is_nn(pos, b, t) {
                            assert(pos[b].nn@.contains(p.1));
                        }
                    }
                } else {
                    assert(prev[f].occ == pos[f].occ);
                }
            }
        } else {
            assert(prev.len() == pos.len());
        }
    }
}

/// A collection whose entries with targets in the two endpoints' shells
/// follow the new state's legality, and all other entries the pre-move
/// state's, is exactly the new state's legal-move set.
#[verifier::rlimit(100)]
#[verifier::spinoff_prover]
proof fn lemma_moves_refreshed_exact(mset: Set<(u32, u32)>, pos: Seq<AtomPosition>, a: int, b: int)
    requires
        wf_topology(pos),
        cn_consistent(pos),
        occ_ok(pos),
        0 <= a < pos.len(),
        0 <= b < pos.len(),
        a != b,
        pos[a].occ == 0,
        pos[b].occ == 1,
        is_nn(pos, a, b),
        forall|p: (u32, u32)|
            mset.contains(p) == (if pos[a].nn@.contains(p.1) || pos[b].nn@.contains(p.1) {
                mv_ok(pos, p)
            } else {
                spec_legal_moves(spec_move_applied(pos, b, a)).contains(p)
            }),
    ensures
        mset == spec_legal_moves(pos),
{
    lemma_legality_local(pos, a, b);
    assert forall|p: (u32, u32)| mset.contains(p) == mv_ok(pos, p) by {
        if !pos[a].nn@.contains(p.1) && !pos[b].nn@.contains(p.1) {
            assert(spec_legal_moves(spec_move_applied(pos, b, a)).contains(p) == mv_ok(
                spec_move_applied(pos, b, a),
                p,
            ));
            assert(mv_ok(spec_move_applied(pos, b, a), p) == mv_ok(pos, p));
        }
    }
    assert(mset =~= spec_legal_moves(pos));
}

/// Every stored move of the pre-move state names a valid source adjacent to
/// its target, read on the post-move state, whose shells are the same.
#[verifier::rlimit(100)]
#[verifier::spinoff_prover]
proof fn lemma_prev_moves_adjacent(mset: Set<(u32, u32)>, pos: Seq<AtomPosition>, a: int, b: int)
    requires
        wf_topology(pos),
        0 <= a < pos.len(),
        0 <= b < pos.len(),
        a != b,
        pos[a].occ == 0,
        pos[b].occ == 1,
        mset == spec_legal_moves(spec_move_applied(pos, b, a)),
    ensures
        forall|p: (u32, u32)|
            mset.contains(p) ==> 0 <= (p.0 as int) < pos.len() && is_nn(pos, p.0 as int, p.1 as int),
{
    let prev = spec_move_applied(pos, b, a);
    assert forall|p: (u32, u32)| mset.contains(p) implies 0 <= (p.0 as int) < pos.len() && is_nn(
        pos,
        p.0 as int,
        p.1 as int,
    ) by {
        assert(mv_ok(prev, p));
        assert(prev[p.0 as int].nn == pos[p.0 as int].nn);
    }
}

/// After the move, the updated occupied-site set again holds exactly the
/// metal-occupied sites.
proof fn lemma_onlyocc_after_move(
    nset: Set<u32>,
    oldpos: Seq<AtomPosition>,
    posf: Seq<AtomPosition>,
    a: int,
    b: int,
)
    requires
        posf.len() == oldpos.len(),
        0 <= a < oldpos.len(),
        0 <= b < oldpos.len(),
        a != b,
        forall|site: u32|
            #[trigger] nset.contains(site) <==> (occ_at(oldpos, site as int) && site as int != a
                || site as int == b),
        posf[a].occ == 0,
        posf[b].occ == 1,
        forall|s: int|
            0 <= s < oldpos.len() && s != a && s != b ==> (#[trigger] posf[s]).occ == oldpos[s].occ,
    ensures
        forall|site: u32| #[trigger] nset.contains(site) <==> occ_at(posf, site as int),
{
    assert forall|site: u32| #[trigger] nset.contains(site) <==> occ_at(posf, site as int) by {
        if site as int == a {
        } else if site as int == b {
        } else {
            if 0 <= (site as int) < oldpos.len() {
                assert(posf[site as int].occ == oldpos[site as int].occ);
            }
        }
    }
}

/// One Monte Carlo simulation instance.
pub struct Simulation {
    pub atom_pos: Vec<AtomPosition>,
    pub niter: u64,
    pub number_all_atoms: u32,
    pub onlyocc: std::collections::HashSet<u32>,
    pub possible_moves: ListDict,
    pub total_energy_1000: i64,
    pub cn_dict: [u32; 13],
    pub cn_dict_at_supp: [u32; 13],
    pub energy: EnergyInput,
    pub gridstructure: GridStructure,
    pub support_e: i64,
}

impl Simulation {
    pub open spec fn pos(&self) -> Seq<AtomPosition> {
        self.atom_pos@
    }

    pub open spec fn nsites(&self) -> int {
        self.atom_pos@.len() as int
    }

    /// Both histograms agree with a from-scratch count over all sites.
    pub open spec fn hist_ok(&self) -> bool {
        hists_anchored(self.cn_dict@, self.cn_dict_at_supp@, self.pos(), self.nsites(), -1)
    }

    /// The occupied-site set holds exactly the metal-occupied sites.
    pub open spec fn onlyocc_ok(&self) -> bool {
        forall|site: u32| #[trigger] self.onlyocc@.contains(site) <==> occ_at(self.pos(), site as int)
    }

    /// The per-site neighbor shells are the topology's.
    pub open spec fn grid_matches(&self) -> bool {
        &&& self.gridstructure.nn@.len() == self.nsites()
        &&& forall|s: int|
            0 <= s < self.nsites() ==> (#[trigger] self.atom_pos@[s]).nn == self.gridstructure.nn@[s]
    }

    /// Everything that holds of a simulation state at every step boundary,
    /// except for the move collection's agreement with the occupancy.
    pub open spec fn wf_core(&self) -> bool {
        &&& wf_topology(self.pos())
        &&& occ_ok(self.pos())
        &&& cn_consistent(self.pos())
        &&& forall|s: int| 0 <= s < self.nsites() ==> (#[trigger] self.atom_pos@[s]).cn_metal <= 12
        &&& self.hist_ok()
        &&& self.onlyocc_ok()
        &&& self.possible_moves.inv()
        &&& self.total_energy_1000 as int == spec_total_energy(
            self.pos(),
            self.energy,
            self.support_e,
        )
        &&& energy_input_bounded(self.energy)
        &&& -ENERGY_ENTRY_BOUND <= self.support_e <= ENERGY_ENTRY_BOUND
        &&& grid_wf(self.gridstructure)
        &&& self.grid_matches()
    }

    /// A well-formed simulation state: the step invariants hold and the
    /// move collection is exactly the legal-move set of the occupancy.
    pub open spec fn wf(&self) -> bool {
        &&& self.wf_core()
        &&& self.possible_moves@ == spec_legal_moves(self.pos())
    }

    /// The Metropolis decision, given the outcome of the uphill draw: a move
    /// that does not raise the energy is always accepted; a move that raises
    /// it is accepted exactly when the draw accepted it.
    pub fn is_acceptance_criteria_fulfilled(
        &self,
        energy1000_diff: i64,
        uphill_draw_accepts: bool,
    ) -> (r: bool)
        ensures
            r == (energy1000_diff <= 0 || uphill_draw_accepts),
    {
        if energy1000_diff <= 0 {
            return true;
        }
        uphill_draw_accepts
    }

    /// Moves one site in or out of the histograms.
    #[inline]
    fn update_cn_dict(&mut self, atom: usize, cn: usize, change_is_positiv: bool)
        requires
            cn < 13,
            (atom as int) < old(self).atom_pos@.len(),
            change_is_positiv ==> old(self).cn_dict@[cn as int] < 0xFFFF_FFFFu32 && (old(
                self,
            ).atom_pos@[atom as int].nn_support == 1 ==> old(self).cn_dict_at_supp@[cn as int]
                < 0xFFFF_FFFFu32),
            !change_is_positiv ==> old(self).cn_dict@[cn as int] >= 1 && (old(
                self,
            ).atom_pos@[atom as int].nn_support == 1 ==> old(self).cn_dict_at_supp@[cn as int] >= 1),
        ensures
            final(self).atom_pos == old(self).atom_pos,
            final(self).possible_moves == old(self).possible_moves,
            final(self).onlyocc == old(self).onlyocc,
            final(self).total_energy_1000 == old(self).total_energy_1000,
            final(self).energy == old(self).energy,
            final(self).gridstructure == old(self).gridstructure,
            final(self).support_e == old(self).support_e,
            final(self).niter == old(self).niter,
            final(self).number_all_atoms == old(self).number_all_atoms,
            final(self).cn_dict@ == old(self).cn_dict@.update(
                cn as int,
                (if change_is_positiv {
                    (old(self).cn_dict@[cn as int] + 1) as u32
                } else {
                    (old(self).cn_dict@[cn as int] - 1) as u32
                }),
            ),
            old(self).atom_pos@[atom as int].nn_support == 1 ==> final(self).cn_dict_at_supp@ == old(
                self,
            ).cn_dict_at_supp@.update(
                cn as int,
                (if change_is_positiv {
                    (old(self).cn_dict_at_supp@[cn as int] + 1) as u32
                } else {
                    (old(self).cn_dict_at_supp@[cn as int] - 1) as u32
                }),
            ),
            old(self).atom_pos@[atom as int].nn_support != 1 ==> final(self).cn_dict_at_supp == old(
                self,
            ).cn_dict_at_supp,
    {
        match change_is_positiv {
            true => {
                if self.atom_pos[atom].nn_support == 1 {
                    self.cn_dict_at_supp[cn] = self.cn_dict_at_supp[cn] + 1;
                }
                self.cn_dict[cn] = self.cn_dict[cn] + 1;
            }
            false => {
                if self.atom_pos[atom].nn_support == 1 {
                    self.cn_dict_at_supp[cn] = self.cn_dict_at_supp[cn] - 1;
                }
                self.cn_dict[cn] = self.cn_dict[cn] - 1;
            }
        }
    }

    /// Shifts one site's cached coordination number by one, moving the
    /// site's histogram bucket along with it when the site holds a metal
    /// atom and is not the excluded site.
    #[verifier::rlimit(100)]
    #[verifier::spinoff_prover]
    fn relax_neighbor(&mut self, o: u32, excl_site: u32, dec: bool)
        requires
            (o as int) < old(self).atom_pos@.len(),
            (excl_site as int) < old(self).atom_pos@.len(),
            old(self).atom_pos@.len() <= MAX_NSITES,
            old(self).atom_pos@[o as int].cn_metal <= 12,
            dec ==> old(self).atom_pos@[o as int].cn_metal >= 1,
            !dec ==> old(self).atom_pos@[o as int].cn_metal <= 11,
            hists_anchored(
                old(self).cn_dict@,
                old(self).cn_dict_at_supp@,
                old(self).atom_pos@,
                old(self).atom_pos@.len() as int,
                excl_site as int,
            ),
        ensures
            final(self).atom_pos@ == old(self).atom_pos@.update(
                o as int,
                (AtomPosition {
                    cn_metal: (if dec {
                        (old(self).atom_pos@[o as int].cn_metal - 1) as usize
                    } else {
                        (old(self).atom_pos@[o as int].cn_metal + 1) as usize
                    }),
                    ..old(self).atom_pos@[o as int]
                }),
            ),
            hists_anchored(
                final(self).cn_dict@,
                final(self).cn_dict_at_supp@,
                final(self).atom_pos@,
                old(self).atom_pos@.len() as int,
                excl_site as int,
            ),
            final(self).onlyocc == old(self).onlyocc,
            final(self).possible_moves == old(self).possible_moves,
            final(self).total_energy_1000 == old(self).total_energy_1000,
            final(self).energy == old(self).energy,
            final(self).gridstructure == old(self).gridstructure,
            final(self).support_e == old(self).support_e,
            final(self).niter == old(self).niter,
            final(self).number_all_atoms == old(self).number_all_atoms,
    {
        let ghost n = self.atom_pos@.len() as int;
        let ghost b = excl_site as int;
        if self.atom_pos[o as usize].occ == 1 && o != excl_site {
            let cn_o = self.atom_pos[o as usize].cn_metal;
            let cn_new = if dec {
                cn_o - 1
            } else {
                cn_o + 1
            };
            proof {
                assert(hists_anchored(self.cn_dict@, self.cn_dict_at_supp@, self.atom_pos@, n, b));
                assert(hist_contrib(self.atom_pos@, o as int, cn_o as int, b, false) == 1);
                lemma_hist_count_member(self.atom_pos@, cn_o as int, n, b, false, o as int);
                if self.atom_pos@[o as int].nn_support == 1 {
                    lemma_hist_count_member(self.atom_pos@, cn_o as int, n, b, true, o as int);
                }
                lemma_hist_count_bounds(self.atom_pos@, cn_new as int, n, b, false);
                lemma_hist_count_bounds(self.atom_pos@, cn_new as int, n, b, true);
                assert((self.cn_dict@[cn_o as int]) as int == hist_count(
                    self.atom_pos@,
                    cn_o as int,
                    n,
                    b,
                    false,
                ));
                assert((self.cn_dict_at_supp@[cn_o as int]) as int == hist_count(
                    self.atom_pos@,
                    cn_o as int,
                    n,
                    b,
                    true,
                ));
                assert((self.cn_dict@[cn_new as int]) as int == hist_count(
                    self.atom_pos@,
                    cn_new as int,
                    n,
                    b,
                    false,
                ));
                assert((self.cn_dict_at_supp@[cn_new as int]) as int == hist_count(
                    self.atom_pos@,
                    cn_new as int,
                    n,
                    b,
                    true,
                ));
            }
            self.update_cn_dict(o as usize, cn_o, false);
            self.update_cn_dict(o as usize, cn_new, true);
        }
        let ghost pos_before = self.atom_pos@;
        let mut tmp = self.atom_pos[o as usize];
        tmp.cn_metal = if dec {
            tmp.cn_metal - 1
        } else {
            tmp.cn_metal + 1
        };
        self.atom_pos[o as usize] = tmp;
        proof {
            assert(pos_before == old(self).atom_pos@);
            assert(hists_anchored(old(self).cn_dict@, old(self).cn_dict_at_supp@, pos_before, n, b));
            assert forall|k: int| 0 <= k < 13 implies (#[trigger] self.cn_dict@[k]) as int
                == hist_count(self.atom_pos@, k, n, b, false) && (self.cn_dict_at_supp@[k]) as int
                == hist_count(self.atom_pos@, k, n, b, true) by {
                lemma_hist_count_update_both(pos_before, self.atom_pos@, k, n, b, o as int);
                assert((old(self).cn_dict@[k]) as int == hist_count(
                    old(self).atom_pos@,
                    k,
                    n,
                    b,
                    false,
                ));
            }
            assert(hists_anchored(self.cn_dict@, self.cn_dict_at_supp@, self.atom_pos@, n, b));
        }
    }

    /// Lowers by one the coordination number of every neighbor of the
    /// departed site, moving each affected occupied site's histogram bucket
    /// along with it.
    #[verifier::rlimit(100)]
    #[verifier::spinoff_prover]
    fn sweep_from_neighbors(
        &mut self,
        move_from: u32,
        move_to: u32,
        Ghost(oldpos): Ghost<Seq<AtomPosition>>,
    )
        requires
            old(self).atom_pos@.len() == oldpos.len(),
            wf_topology(oldpos),
            occ_at(oldpos, move_from as int),
            0 <= (move_to as int) < oldpos.len(),
            oldpos[move_to as int].occ == 0,
            forall|s: int|
                0 <= s < oldpos.len() ==> (#[trigger] old(self).atom_pos@[s]).nn == oldpos[s].nn
                    && old(self).atom_pos@[s].nn_support == oldpos[s].nn_support,
            forall|s: int|
                0 <= s < oldpos.len() && s != (move_from as int) && s != (move_to as int)
                    ==> (#[trigger] old(self).atom_pos@[s]).occ == oldpos[s].occ,
            old(self).atom_pos@[move_from as int].occ == 0,
            old(self).atom_pos@[move_to as int].occ == 1,
            forall|s: int|
                0 <= s < oldpos.len() ==> (#[trigger] old(self).atom_pos@[s]).cn_metal as int
                    == spec_cn(oldpos, s),
            hists_anchored(
                old(self).cn_dict@,
                old(self).cn_dict_at_supp@,
                old(self).atom_pos@,
                oldpos.len() as int,
                move_to as int,
            ),
        ensures
            final(self).atom_pos@.len() == oldpos.len(),
            forall|s: int|
                0 <= s < oldpos.len() ==> (#[trigger] final(self).atom_pos@[s]).occ == old(
                    self,
                ).atom_pos@[s].occ && final(self).atom_pos@[s].nn == old(self).atom_pos@[s].nn
                    && final(self).atom_pos@[s].nn_support == old(self).atom_pos@[s].nn_support,
            forall|s: int|
                0 <= s < oldpos.len() ==> (#[trigger] final(self).atom_pos@[s]).cn_metal as int
                    == spec_cn(oldpos, s) - crate::lattice::index_count_prefix(
                    oldpos[move_from as int].nn@,
                    12,
                    s,
                ),
            hists_anchored(
                final(self).cn_dict@,
                final(self).cn_dict_at_supp@,
                final(self).atom_pos@,
                oldpos.len() as int,
                move_to as int,
            ),
            final(self).onlyocc == old(self).onlyocc,
            final(self).possible_moves == old(self).possible_moves,
            final(self).total_energy_1000 == old(self).total_energy_1000,
            final(self).energy == old(self).energy,
            final(self).gridstructure == old(self).gridstructure,
            final(self).support_e == old(self).support_e,
            final(self).niter == old(self).niter,
            final(self).number_all_atoms == old(self).number_all_atoms,
    {
        let ghost n = oldpos.len() as int;
        let ghost a = move_from as int;
        let ghost b = move_to as int;
        let ghost pos0 = self.atom_pos@;
        let nn_a_arr = self.atom_pos[move_from as usize].nn;
        proof {
            assert(crate::lattice::nn_ok(oldpos, a));
        }
        let mut j: usize = 0;
        while j < 12
            invariant
                j <= 12,
                n == oldpos.len(),
                n <= MAX_NSITES,
                a == move_from as int,
                b == move_to as int,
                pos0 == old(self).atom_pos@,
                self.atom_pos@.len() == n,
                nn_a_arr == oldpos[a].nn,
                wf_topology(oldpos),
                occ_at(oldpos, a),
                0 <= b < n,
                a != b,
                forall|s: int|
                    0 <= s < n ==> (#[trigger] self.atom_pos@[s]).occ == pos0[s].occ
                        && self.atom_pos@[s].nn == pos0[s].nn && self.atom_pos@[s].nn_support
                        == pos0[s].nn_support,
                forall|s: int|
                    0 <= s < n ==> (#[trigger] self.atom_pos@[s]).cn_metal as int == spec_cn(
                        oldpos,
                        s,
                    ) - crate::lattice::index_count_prefix(nn_a_arr@, j as int, s),
                hists_anchored(self.cn_dict@, self.cn_dict_at_supp@, self.atom_pos@, n, b),
                self.onlyocc == old(self).onlyocc,
                self.possible_moves == old(self).possible_moves,
                self.total_energy_1000 == old(self).total_energy_1000,
                self.energy == old(self).energy,
                self.gridstructure == old(self).gridstructure,
                self.support_e == old(self).support_e,
                self.niter == old(self).niter,
                self.number_all_atoms == old(self).number_all_atoms,
            decreases 12 - j,
        {
            let o = nn_a_arr[j];
            let ghost pos_before = self.atom_pos@;
            proof {
                assert(crate::lattice::nn_ok(oldpos, a));
                assert(0 <= (o as int) < n && o as int != a);
                assert(crate::lattice::index_count_prefix(nn_a_arr@, j as int, o as int) == 0) by {
                    crate::lattice::lemma_index_count_distinct(nn_a_arr@, j as int, o as int);
                }
                // The departing atom sits in o's shell, so o's old count is
                // positive and the decrement cannot underflow.
                assert(oldpos[a].nn@[j as int] == o);
                assert(oldpos[(oldpos[a].nn@[j as int]) as int].nn@.contains(a as u32));
                assert(a as u32 == move_from);
                assert(oldpos[o as int].nn@.contains(move_from));
                let ja = choose|ja: int|
                    0 <= ja < oldpos[o as int].nn@.len() && oldpos[o as int].nn@[ja] == move_from;
                crate::lattice::lemma_occ_prefix_member(oldpos, oldpos[o as int].nn@, 12, ja);
                crate::lattice::lemma_occ_prefix_bounds(oldpos, oldpos[o as int].nn@, 12);
                assert(spec_cn(oldpos, o as int) >= 1);
            }
            self.relax_neighbor(o, move_to, true);
            proof {
                assert forall|s: int| 0 <= s < n implies (#[trigger] self.atom_pos@[s]).cn_metal
                    as int == spec_cn(oldpos, s) - crate::lattice::index_count_prefix(
                    nn_a_arr@,
                    j as int + 1,
                    s,
                ) by {
                    if s != o as int {
                        assert(self.atom_pos@[s] == pos_before[s]);
                    }
                }
            }
            j += 1;
        }
    }

    /// Raises by one the coordination number of every neighbor of the newly
    /// occupied site, moving each affected occupied site's histogram bucket
    /// along with it.
    #[verifier::rlimit(100)]
    #[verifier::spinoff_prover]
    fn sweep_to_neighbors(
        &mut self,
        move_from: u32,
        move_to: u32,
        Ghost(oldpos): Ghost<Seq<AtomPosition>>,
    )
        requires
            old(self).atom_pos@.len() == oldpos.len(),
            wf_topology(oldpos),
            occ_at(oldpos, move_from as int),
            0 <= (move_to as int) < oldpos.len(),
            oldpos[move_to as int].occ == 0,
            forall|s: int|
                0 <= s < oldpos.len() ==> (#[trigger] old(self).atom_pos@[s]).nn == oldpos[s].nn
                    && old(self).atom_pos@[s].nn_support == oldpos[s].nn_support,
            forall|s: int|
                0 <= s < oldpos.len() && s != (move_from as int) && s != (move_to as int)
                    ==> (#[trigger] old(self).atom_pos@[s]).occ == oldpos[s].occ,
            old(self).atom_pos@[move_from as int].occ == 0,
            old(self).atom_pos@[move_to as int].occ == 1,
            forall|s: int|
                0 <= s < oldpos.len() ==> (#[trigger] old(self).atom_pos@[s]).cn_metal as int
                    == spec_cn(oldpos, s) - crate::lattice::index_count_prefix(
                    oldpos[move_from as int].nn@,
                    12,
                    s,
                ),
            hists_anchored(
                old(self).cn_dict@,
                old(self).cn_dict_at_supp@,
                old(self).atom_pos@,
                oldpos.len() as int,
                move_to as int,
            ),
        ensures
            final(self).atom_pos@.len() == oldpos.len(),
            forall|s: int|
                0 <= s < oldpos.len() ==> (#[trigger] final(self).atom_pos@[s]).occ == old(
                    self,
                ).atom_pos@[s].occ && final(self).atom_pos@[s].nn == old(self).atom_pos@[s].nn
                    && final(self).atom_pos@[s].nn_support == old(self).atom_pos@[s].nn_support,
            forall|s: int|
                0 <= s < oldpos.len() ==> (#[trigger] final(self).atom_pos@[s]).cn_metal as int
                    == spec_cn(oldpos, s) - crate::lattice::index_count_prefix(
                    oldpos[move_from as int].nn@,
                    12,
                    s,
                ) + crate::lattice::index_count_prefix(oldpos[move_to as int].nn@, 12, s),
            hists_anchored(
                final(self).cn_dict@,
                final(self).cn_dict_at_supp@,
                final(self).atom_pos@,
                oldpos.len() as int,
                move_to as int,
            ),
            final(self).onlyocc == old(self).onlyocc,
            final(self).possible_moves == old(self).possible_moves,
            final(self).total_energy_1000 == old(self).total_energy_1000,
            final(self).energy == old(self).energy,
            final(self).gridstructure == old(self).gridstructure,
            final(self).support_e == old(self).support_e,
            final(self).niter == old(self).niter,
            final(self).number_all_atoms == old(self).number_all_atoms,
    {
        let ghost n = oldpos.len() as int;
        let ghost a = move_from as int;
        let ghost b = move_to as int;
        let ghost pos0 = self.atom_pos@;
        let nn_b_arr = self.atom_pos[move_to as usize].nn;
        proof {
            assert(crate::lattice::nn_ok(oldpos, b));
        }
        let mut j: usize = 0;
        while j < 12
            invariant
                j <= 12,
                n == oldpos.len(),
                n <= MAX_NSITES,
                a == move_from as int,
                b == move_to as int,
                pos0 == old(self).atom_pos@,
                self.atom_pos@.len() == n,
                nn_b_arr == oldpos[b].nn,
                wf_topology(oldpos),
                occ_at(oldpos, a),
                oldpos[b].occ == 0,
                0 <= b < n,
                a != b,
                forall|s: int|
                    0 <= s < n ==> (#[trigger] self.atom_pos@[s]).occ == pos0[s].occ
                        && self.atom_pos@[s].nn == pos0[s].nn && self.atom_pos@[s].nn_support
                        == pos0[s].nn_support,
                forall|s: int|
                    0 <= s < n ==> (#[trigger] self.atom_pos@[s]).cn_metal as int == spec_cn(
                        oldpos,
                        s,
                    ) - crate::lattice::index_count_prefix(oldpos[a].nn@, 12, s)
                        + crate::lattice::index_count_prefix(nn_b_arr@, j as int, s),
                hists_anchored(self.cn_dict@, self.cn_dict_at_supp@, self.atom_pos@, n, b),
                self.onlyocc == old(self).onlyocc,
                self.possible_moves == old(self).possible_moves,
                self.total_energy_1000 == old(self).total_energy_1000,
                self.energy == old(self).energy,
                self.gridstructure == old(self).gridstructure,
                self.support_e == old(self).support_e,
                self.niter == old(self).niter,
                self.number_all_atoms == old(self).number_all_atoms,
            decreases 12 - j,
        {
            let o = nn_b_arr[j];
            let ghost pos_before = self.atom_pos@;
            proof {
                assert(crate::lattice::nn_ok(oldpos, b));
                assert(0 <= (o as int) < n && o as int != b);
                assert(crate::lattice::index_count_prefix(nn_b_arr@, j as int, o as int) == 0) by {
                    crate::lattice::lemma_index_count_distinct(nn_b_arr@, j as int, o as int);
                }
                crate::lattice::lemma_index_count_bounds(oldpos[a].nn@, 12, o as int);
                // The empty target sits in o's shell, so o's old count stays
                // below the full shell and the increment cannot overflow.
                assert(oldpos[b].nn@[j as int] == o);
                assert(oldpos[(oldpos[b].nn@[j as int]) as int].nn@.contains(b as u32));
                assert(b as u32 == move_to);
                assert(oldpos[o as int].nn@.contains(move_to));
                let jb = choose|jb: int|
                    0 <= jb < oldpos[o as int].nn@.len() && oldpos[o as int].nn@[jb] == move_to;
                assert(crate::lattice::nn_ok(oldpos, o as int));
                crate::lattice::lemma_occ_prefix_nonmember(oldpos, oldpos[o as int].nn@, 12, jb);
                crate::lattice::lemma_occ_prefix_bounds(oldpos, oldpos[o as int].nn@, 12);
                assert(spec_cn(oldpos, o as int) <= 11);
            }
            self.relax_neighbor(o, move_to, false);
            proof {
                assert forall|s: int| 0 <= s < n implies (#[trigger] self.atom_pos@[s]).cn_metal
                    as int == spec_cn(oldpos, s) - crate::lattice::index_count_prefix(
                    oldpos[a].nn@,
                    12,
                    s,
                ) + crate::lattice::index_count_prefix(nn_b_arr@, j as int + 1, s) by {
                    if s != o as int {
                        assert(self.atom_pos@[s] == pos_before[s]);
                    }
                }
            }
            j += 1;
        }
    }

    /// Takes the departing atom's bucket out of both histograms and
    /// re-anchors them to the swapped occupancy, with the arriving atom
    /// excluded until its coordination number has settled.
    #[verifier::rlimit(100)]
    #[verifier::spinoff_prover]
    fn remove_source_from_hist(
        &mut self,
        move_from: u32,
        move_to: u32,
        is_recording_sections: bool,
        Ghost(oldpos): Ghost<Seq<AtomPosition>>,
    )
        requires
            old(self).atom_pos@.len() == oldpos.len(),
            oldpos.len() <= MAX_NSITES,
            0 <= (move_from as int) < oldpos.len(),
            0 <= (move_to as int) < oldpos.len(),
            move_from != move_to,
            oldpos[move_from as int].occ == 1,
            oldpos[move_to as int].occ == 0,
            oldpos[move_from as int].cn_metal < 13,
            old(self).atom_pos@ == oldpos.update(
                move_from as int,
                (AtomPosition { occ: 0, ..oldpos[move_from as int] }),
            ).update(
                move_to as int,
                (AtomPosition { occ: oldpos[move_from as int].occ, ..oldpos[move_to as int] }),
            ),
            hists_anchored(
                old(self).cn_dict@,
                old(self).cn_dict_at_supp@,
                oldpos,
                oldpos.len() as int,
                -1,
            ),
        ensures
            final(self).atom_pos == old(self).atom_pos,
            hists_anchored(
                final(self).cn_dict@,
                final(self).cn_dict_at_supp@,
                final(self).atom_pos@,
                oldpos.len() as int,
                move_to as int,
            ),
            final(self).onlyocc == old(self).onlyocc,
            final(self).possible_moves == old(self).possible_moves,
            final(self).total_energy_1000 == old(self).total_energy_1000,
            final(self).energy == old(self).energy,
            final(self).gridstructure == old(self).gridstructure,
            final(self).support_e == old(self).support_e,
            final(self).niter == old(self).niter,
            final(self).number_all_atoms == old(self).number_all_atoms,
    {
        let ghost n = oldpos.len() as int;
        let ghost a = move_from as int;
        let ghost b = move_to as int;
        let ghost pos_a = self.atom_pos@;
        let cn_a = self.atom_pos[move_from as usize].cn_metal;
        proof {
            // The histogram still matches the occupancy before the swap; the
            // bucket about to be decremented counts the departing atom.
            assert(hists_anchored(self.cn_dict@, self.cn_dict_at_supp@, oldpos, n, -1));
            assert(cn_a == oldpos[a].cn_metal);
            assert(hist_contrib(oldpos, a, cn_a as int, -1, false) == 1);
            lemma_hist_count_member(oldpos, cn_a as int, n, -1, false, a);
            if oldpos[a].nn_support == 1 {
                assert(hist_contrib(oldpos, a, cn_a as int, -1, true) == 1);
                lemma_hist_count_member(oldpos, cn_a as int, n, -1, true, a);
            }
            assert(self.atom_pos@[a].nn_support == oldpos[a].nn_support);
            assert((self.cn_dict@[cn_a as int]) as int == hist_count(oldpos, cn_a as int, n, -1, false)
                && (self.cn_dict_at_supp@[cn_a as int]) as int == hist_count(
                oldpos,
                cn_a as int,
                n,
                -1,
                true,
            ));
        }
        if SAVE_ENTIRE_SIM || is_recording_sections {
            self.update_cn_dict(move_from as usize, cn_a, false);
        }
        proof {
            assert forall|k: int| 0 <= k < 13 implies (#[trigger] self.cn_dict@[k]) as int
                == hist_count(pos_a, k, n, b, false) && (self.cn_dict_at_supp@[k]) as int
                == hist_count(pos_a, k, n, b, true) by {
                lemma_hist_count_drop_excl(oldpos, k, n, b, false);
                lemma_hist_count_drop_excl(oldpos, k, n, b, true);
                lemma_hist_count_update_both(oldpos, pos_a, k, n, b, a);
                assert((old(self).cn_dict@[k]) as int == hist_count(oldpos, k, n, -1, false));
            }
            assert(hists_anchored(self.cn_dict@, self.cn_dict_at_supp@, self.atom_pos@, n, b));
        }
    }

    /// Enters the arriving atom's settled bucket into both histograms,
    /// making them exact for the new occupancy again.
    #[verifier::rlimit(100)]
    #[verifier::spinoff_prover]
    fn insert_target_into_hist(&mut self, move_to: u32, is_recording_sections: bool)
        requires
            (move_to as int) < old(self).atom_pos@.len(),
            old(self).atom_pos@.len() <= MAX_NSITES,
            old(self).atom_pos@[move_to as int].occ == 1,
            old(self).atom_pos@[move_to as int].cn_metal < 13,
            hists_anchored(
                old(self).cn_dict@,
                old(self).cn_dict_at_supp@,
                old(self).atom_pos@,
                old(self).atom_pos@.len() as int,
                move_to as int,
            ),
        ensures
            final(self).atom_pos == old(self).atom_pos,
            hists_anchored(
                final(self).cn_dict@,
                final(self).cn_dict_at_supp@,
                final(self).atom_pos@,
                old(self).atom_pos@.len() as int,
                -1,
            ),
            final(self).onlyocc == old(self).onlyocc,
            final(self).possible_moves == old(self).possible_moves,
            final(self).total_energy_1000 == old(self).total_energy_1000,
            final(self).energy == old(self).energy,
            final(self).gridstructure == old(self).gridstructure,
            final(self).support_e == old(self).support_e,
            final(self).niter == old(self).niter,
            final(self).number_all_atoms == old(self).number_all_atoms,
    {
        let ghost n = self.atom_pos@.len() as int;
        let ghost b = move_to as int;
        let cn_b_new = self.atom_pos[move_to as usize].cn_metal;
        proof {
            assert(hists_anchored(self.cn_dict@, self.cn_dict_at_supp@, self.atom_pos@, n, b));
            lemma_hist_count_bounds(self.atom_pos@, cn_b_new as int, n, b, false);
            lemma_hist_count_bounds(self.atom_pos@, cn_b_new as int, n, b, true);
        }
        if SAVE_ENTIRE_SIM || is_recording_sections {
            self.update_cn_dict(move_to as usize, cn_b_new, true);
        }
        proof {
            let posf = self.atom_pos@;
            assert(posf[b].occ == 1);
            assert(posf[b].cn_metal == cn_b_new);
            assert forall|k: int| 0 <= k < 13 implies (#[trigger] self.cn_dict@[k]) as int
                == hist_count(posf, k, n, -1, false) && (self.cn_dict_at_supp@[k]) as int
                == hist_count(posf, k, n, -1, true) by {
                lemma_hist_count_drop_excl(posf, k, n, b, false);
                lemma_hist_count_drop_excl(posf, k, n, b, true);
                assert((old(self).cn_dict@[k]) as int == hist_count(posf, k, n, b, false));
                assert(hist_contrib(posf, b, k, -1, false) == if k == cn_b_new as int {
                    1int
                } else {
                    0
                });
                assert(hist_contrib(posf, b, k, -1, true) == if k == cn_b_new as int
                    && posf[b].nn_support == 1 {
                    1int
                } else {
                    0
                });
            }
            assert(hists_anchored(self.cn_dict@, self.cn_dict_at_supp@, self.atom_pos@, n, -1));
        }
    }

    /// Swaps the occupancy of the two endpoints and keeps the occupied-site
    /// set in step with it.
    #[verifier::spinoff_prover]
    fn swap_occupancy(&mut self, move_from: u32, move_to: u32)
        requires
            (move_from as int) < old(self).atom_pos@.len(),
            (move_to as int) < old(self).atom_pos@.len(),
            move_from != move_to,
        ensures
            final(self).atom_pos@ == old(self).atom_pos@.update(
                move_from as int,
                (AtomPosition { occ: 0, ..old(self).atom_pos@[move_from as int] }),
            ).update(
                move_to as int,
                (AtomPosition {
                    occ: old(self).atom_pos@[move_from as int].occ,
                    ..old(self).atom_pos@[move_to as int]
                }),
            ),
            final(self).onlyocc@ == old(self).onlyocc@.remove(move_from).insert(move_to),
            final(self).possible_moves == old(self).possible_moves,
            final(self).total_energy_1000 == old(self).total_energy_1000,
            final(self).cn_dict == old(self).cn_dict,
            final(self).cn_dict_at_supp == old(self).cn_dict_at_supp,
            final(self).energy == old(self).energy,
            final(self).gridstructure == old(self).gridstructure,
            final(self).support_e == old(self).support_e,
            final(self).niter == old(self).niter,
            final(self).number_all_atoms == old(self).number_all_atoms,
    {
        broadcast use vstd::std_specs::hash::group_hash_axioms;

        let ghost oldpos = self.atom_pos@;
        let ghost a = move_from as int;
        let ghost b = move_to as int;
        let occ_from = self.atom_pos[move_from as usize].occ;
        let mut tmp_to = self.atom_pos[move_to as usize];
        tmp_to.occ = occ_from;
        self.atom_pos[move_to as usize] = tmp_to;
        let mut tmp_from = self.atom_pos[move_from as usize];
        tmp_from.occ = 0;
        self.atom_pos[move_from as usize] = tmp_from;
        proof {
            let occ_upd = oldpos.update(a, AtomPosition { occ: 0, ..oldpos[a] }).update(
                b,
                AtomPosition { occ: oldpos[a].occ, ..oldpos[b] },
            );
            assert(self.atom_pos@ =~= occ_upd);
        }
        self.onlyocc.remove(&move_from);
        self.onlyocc.insert(move_to);
        proof {
            assert(self.onlyocc@ =~= old(self).onlyocc@.remove(move_from).insert(move_to));
        }
    }

    /// Applies an accepted move: occupancy swaps between `move_from` and
    /// `move_to`, every affected coordination number and histogram bucket is
    /// adjusted locally, and the energy accumulator absorbs the move's exact
    /// difference.  Afterwards the state is again consistent with a full
    /// recomputation; only the move collection still reflects the occupancy
    /// from before the move.
    #[verifier::rlimit(100)]
    #[verifier::spinoff_prover]
    pub fn perform_move(
        &mut self,
        move_from: u32,
        move_to: u32,
        energy1000_diff: i64,
        is_recording_sections: bool,
    )
        requires
            old(self).wf(),
            occ_at(old(self).pos(), move_from as int),
            0 <= (move_to as int) < old(self).pos().len(),
            old(self).pos()[move_to as int].occ == 0,
            is_nn(old(self).pos(), move_from as int, move_to as int),
            energy1000_diff as int == spec_total_energy(
                spec_move_applied(old(self).pos(), move_from as int, move_to as int),
                old(self).energy,
                old(self).support_e,
            ) - spec_total_energy(old(self).pos(), old(self).energy, old(self).support_e),
        ensures
            final(self).wf_core(),
            final(self).atom_pos@ == spec_move_applied(
                old(self).pos(),
                move_from as int,
                move_to as int,
            ),
            final(self).total_energy_1000 == old(self).total_energy_1000 + energy1000_diff,
            final(self).onlyocc@ == old(self).onlyocc@.remove(move_from).insert(move_to),
            final(self).possible_moves == old(self).possible_moves,
            final(self).niter == old(self).niter,
            final(self).number_all_atoms == old(self).number_all_atoms,
            final(self).energy == old(self).energy,
            final(self).gridstructure == old(self).gridstructure,
            final(self).support_e == old(self).support_e,
            spec_move_applied(final(self).pos(), move_to as int, move_from as int) == old(
                self,
            ).pos(),
    {
        broadcast use vstd::std_specs::hash::group_hash_axioms;

        let ghost oldpos = self.atom_pos@;
        let ghost n = oldpos.len() as int;
        let ghost a = move_from as int;
        let ghost b = move_to as int;
        let ghost target = spec_move_applied(oldpos, a, b);

        self.swap_occupancy(move_from, move_to);
        let ghost pos_a = self.atom_pos@;

        self.remove_source_from_hist(move_from, move_to, is_recording_sections, Ghost(oldpos));
        self.sweep_from_neighbors(move_from, move_to, Ghost(oldpos));
        self.sweep_to_neighbors(move_from, move_to, Ghost(oldpos));

        proof {
            lemma_sweeps_give_target(oldpos, pos_a, self.atom_pos@, a, b);
        }

        self.insert_target_into_hist(move_to, is_recording_sections);

        proof {
            // The updated accumulator equals the from-scratch total of the
            // new state, which is bounded.
            assert forall|s: int| 0 <= s < n implies (#[trigger] oldpos[s]).cn_metal <= 12
                && oldpos[s].nn_support <= 1 by {
                assert(oldpos[s].occ == 0 || oldpos[s].occ == 1 || oldpos[s].occ == 2);
            }
            assert forall|s: int| 0 <= s < n implies (#[trigger] target[s]).cn_metal <= 12
                && target[s].nn_support <= 1 by {
                assert(self.atom_pos@[s].cn_metal <= 12);
                assert(target[s].nn_support == oldpos[s].nn_support);
            }
            lemma_total_energy_bound(oldpos, old(self).energy, old(self).support_e, n);
            lemma_total_energy_bound(target, old(self).energy, old(self).support_e, n);
            assert(14 * ENERGY_ENTRY_BOUND * n <= 14 * ENERGY_ENTRY_BOUND * 0x100_0000)
                by (nonlinear_arith)
                requires
                    0 <= n <= 0x100_0000,
            ;
            assert(-14 * ENERGY_ENTRY_BOUND * n >= -14 * ENERGY_ENTRY_BOUND * 0x100_0000)
                by (nonlinear_arith)
                requires
                    0 <= n <= 0x100_0000,
            ;
        }
        self.total_energy_1000 += energy1000_diff;

        proof {
            crate::lattice::lemma_move_reversible(oldpos, a, b);
            lemma_onlyocc_after_move(self.onlyocc@, oldpos, self.atom_pos@, a, b);
        }
    }

    /// The table-model arm of the move-local difference: gathers the
    /// affected neighbors through the topology's no-intersect decomposition
    /// and sums the exact per-site table changes.
    #[verifier::rlimit(100)]
    #[verifier::spinoff_prover]
    fn energy_change_table(&self, move_from: u32, move_to: u32) -> (r: i64)
        requires
            self.wf_core(),
            occ_at(self.pos(), move_from as int),
            0 <= (move_to as int) < self.nsites(),
            self.pos()[move_to as int].occ == 0,
            is_nn(self.pos(), move_from as int, move_to as int),
            self.energy is Cn,
        ensures
            r as int == spec_total_energy(
                spec_move_applied(self.pos(), move_from as int, move_to as int),
                self.energy,
                self.support_e,
            ) - spec_total_energy(self.pos(), self.energy, self.support_e),
    {
        let ghost pos = self.atom_pos@;
        let ghost av = move_from as int;
        let ghost bv = move_to as int;
        let ghost n = pos.len() as int;
        proof {
            assert(pos[av].nn@.contains(move_to));
            let jn = choose|jn: int|
                0 <= jn < pos[av].nn@.len() && pos[av].nn@[jn] == move_to;
            assert(crate::lattice::nn_ok(pos, av));
            assert(pos[(pos[av].nn@[jn]) as int].nn@.contains(av as u32));
            assert(av as u32 == move_from);
            assert(pos[bv].nn@.contains(move_from));
            let ja = choose|ja: int|
                0 <= ja < pos[bv].nn@.len() && pos[bv].nn@[ja] == move_from;
            crate::lattice::lemma_occ_prefix_member(pos, pos[bv].nn@, 12, ja);
            assert(spec_cn(pos, bv) >= 1);
        }
        let from_at_support = self.atom_pos[move_from as usize].nn_support;
        let to_at_support = self.atom_pos[move_to as usize].nn_support;
        let support_e = self.support_e;
        match &self.energy {
            EnergyInput::LinearCn(_) => unreached(),
            EnergyInput::Cn(energy_cn) => {

        proof {
            // The topology's decomposition entry for the adjacent
            // pair exists, by well-formedness of the grid.
            if move_from < move_to {
                let j0 = choose|j0: int|
                    0 <= j0 < pos[av].nn@.len() && pos[av].nn@[j0] == move_to;
                assert(pos[av].nn == self.gridstructure.nn@[av]);
                assert((self.gridstructure.nn@[av]@[j0]) == move_to);
                assert(crate::grid_structure::pair_entry_ok(
                    self.gridstructure.nn@,
                    self.gridstructure.nn_pair_no_intersec@,
                    av,
                    bv,
                ));
            } else {
                let ja = choose|ja: int|
                    0 <= ja < pos[bv].nn@.len() && pos[bv].nn@[ja] == move_from;
                assert(pos[bv].nn == self.gridstructure.nn@[bv]);
                assert((self.gridstructure.nn@[bv]@[ja]) == move_from);
                assert(crate::grid_structure::pair_entry_ok(
                    self.gridstructure.nn@,
                    self.gridstructure.nn_pair_no_intersec@,
                    bv,
                    av,
                ));
            }
        }
        let (from_change, to_change) = crate::grid_structure::no_int_nn_from_move(
            move_from,
            move_to,
            &self.gridstructure.nn_pair_no_intersec,
        );
        proof {
            // translate the grid-level decomposition exactness to
            // the per-site shells
            assert(crate::grid_structure::side_ok(
                self.gridstructure.nn@,
                from_change,
                av,
                bv,
            ));
            assert(crate::grid_structure::side_ok(
                self.gridstructure.nn@,
                to_change,
                bv,
                av,
            ));
            assert(pos[av].nn == self.gridstructure.nn@[av]);
            assert(pos[bv].nn == self.gridstructure.nn@[bv]);
        }
        let mut from_list: Vec<(usize, u8)> = Vec::new();
        let mut to_list: Vec<(usize, u8)> = Vec::new();
        let mut i: usize = 0;
        while i < 7
            invariant
                self.wf_core(),
                pos == self.atom_pos@,
                n == pos.len(),
                0 <= av < n,
                0 <= bv < n,
                av == move_from as int,
                bv == move_to as int,
                pos[av].occ == 1,
                pos[bv].occ == 0,
                wf_topology(pos),
                i <= 7,
                forall|j: int|
                    0 <= j < 7 ==> pos[av].nn@.contains(#[trigger] from_change@[j])
                        && !pos[bv].nn@.contains(from_change@[j]) && from_change@[j] as int
                        != bv,
                from_list@.len() <= i,
                from_list@ == crate::lattice::spec_occ_entries(
                    pos,
                    from_change@.take(i as int),
                ),
                forall|x: int|
                    0 <= x < from_list@.len() ==> 1 <= (#[trigger] from_list@[x]).0 <= 12,
            decreases 7 - i,
        {
            let x = from_change[i];
            proof {
                assert(pos[av].nn@.contains(from_change@[i as int]));
                let jx = choose|jx: int|
                    0 <= jx < pos[av].nn@.len() && pos[av].nn@[jx] == x;
                assert(crate::lattice::nn_ok(pos, av));
                assert((x as int) < n);
                // an occupied site next to the departing atom has a
                // positive coordination number
                assert(pos[(pos[av].nn@[jx]) as int].nn@.contains(av as u32));
                assert(pos[x as int].nn@.contains(move_from));
                let jm = choose|jm: int|
                    0 <= jm < pos[x as int].nn@.len() && pos[x as int].nn@[jm] == move_from;
                crate::lattice::lemma_occ_prefix_member(pos, pos[x as int].nn@, 12, jm);
                assert(from_change@.take(i as int + 1).drop_last() =~= from_change@.take(
                    i as int,
                ));
                assert(from_change@.take(i as int + 1).last() == from_change@[i as int]);
            }
            if self.atom_pos[x as usize].occ == 1 {
                from_list.push(
                    (self.atom_pos[x as usize].cn_metal, self.atom_pos[x as usize].nn_support),
                );
            }
            i += 1;
        }
        proof {
            assert(from_change@.take(7) =~= from_change@);
        }
        let mut i: usize = 0;
        while i < 7
            invariant
                self.wf_core(),
                pos == self.atom_pos@,
                n == pos.len(),
                0 <= av < n,
                0 <= bv < n,
                av == move_from as int,
                bv == move_to as int,
                pos[av].occ == 1,
                pos[bv].occ == 0,
                wf_topology(pos),
                i <= 7,
                forall|j: int|
                    0 <= j < 7 ==> pos[bv].nn@.contains(#[trigger] to_change@[j])
                        && !pos[av].nn@.contains(to_change@[j]) && to_change@[j] as int
                        != av,
                to_list@.len() <= i,
                to_list@ == crate::lattice::spec_occ_entries(pos, to_change@.take(i as int)),
                forall|x: int| 0 <= x < to_list@.len() ==> (#[trigger] to_list@[x]).0 <= 11,
            decreases 7 - i,
        {
            let x = to_change[i];
            proof {
                assert(pos[bv].nn@.contains(to_change@[i as int]));
                let jx = choose|jx: int|
                    0 <= jx < pos[bv].nn@.len() && pos[bv].nn@[jx] == x;
                assert(crate::lattice::nn_ok(pos, bv));
                assert((x as int) < n);
                // a site next to the empty target has an unoccupied
                // shell entry, so its coordination number stays
                // below the full shell
                assert(pos[(pos[bv].nn@[jx]) as int].nn@.contains(bv as u32));
                assert(pos[x as int].nn@.contains(move_to));
                let jm = choose|jm: int|
                    0 <= jm < pos[x as int].nn@.len() && pos[x as int].nn@[jm] == move_to;
                assert(crate::lattice::nn_ok(pos, x as int));
                crate::lattice::lemma_occ_prefix_nonmember(pos, pos[x as int].nn@, 12, jm);
                assert(to_change@.take(i as int + 1).drop_last() =~= to_change@.take(
                    i as int,
                ));
                assert(to_change@.take(i as int + 1).last() == to_change@[i as int]);
            }
            if self.atom_pos[x as usize].occ == 1 {
                to_list.push(
                    (self.atom_pos[x as usize].cn_metal, self.atom_pos[x as usize].nn_support),
                );
            }
            i += 1;
        }
        proof {
            assert(to_change@.take(7) =~= to_change@);
            crate::lattice::lemma_table_diff_exact(
                pos,
                *energy_cn,
                support_e,
                av,
                bv,
                from_change,
                to_change,
            );
        }
        crate::energy::energy_diff_cn(
            energy_cn,
            &from_list,
            &to_list,
            self.atom_pos[move_from as usize].cn_metal,
            self.atom_pos[move_to as usize].cn_metal,
            from_at_support,
            to_at_support,
            support_e,
        )
            }
        }
    }

    /// Move-local energy difference for a proposed move, dispatching on the
    /// configured model.  The result is exactly the from-scratch
    /// total-energy difference between the state after the move and the
    /// state before it, so adding it to the accumulator keeps the
    /// accumulator equal to the full recomputation.
    #[verifier::rlimit(100)]
    #[verifier::spinoff_prover]
    pub fn energy_change_by_move(&self, move_from: u32, move_to: u32) -> (r: i64)
        requires
            self.wf_core(),
            occ_at(self.pos(), move_from as int),
            0 <= (move_to as int) < self.nsites(),
            self.pos()[move_to as int].occ == 0,
            is_nn(self.pos(), move_from as int, move_to as int),
        ensures
            r as int == spec_total_energy(
                spec_move_applied(self.pos(), move_from as int, move_to as int),
                self.energy,
                self.support_e,
            ) - spec_total_energy(self.pos(), self.energy, self.support_e),
    {
        let ghost pos = self.atom_pos@;
        let ghost av = move_from as int;
        let ghost bv = move_to as int;
        proof {
            // The arriving atom's site counts its departing occupied
            // neighbor, so its coordination number is positive.
            assert(pos[av].nn@.contains(move_to));
            let jn = choose|jn: int|
                0 <= jn < pos[av].nn@.len() && pos[av].nn@[jn] == move_to;
            assert(crate::lattice::nn_ok(pos, av));
            assert(pos[(pos[av].nn@[jn]) as int].nn@.contains(av as u32));
            assert(av as u32 == move_from);
            assert(pos[bv].nn@.contains(move_from));
            let ja = choose|ja: int|
                0 <= ja < pos[bv].nn@.len() && pos[bv].nn@[ja] == move_from;
            crate::lattice::lemma_occ_prefix_member(pos, pos[bv].nn@, 12, ja);
            assert(spec_cn(pos, bv) >= 1);
        }
        match &self.energy {
            EnergyInput::LinearCn(energy_l_cn) => {
                proof {
                    crate::lattice::lemma_linear_diff_exact(
                        pos,
                        *energy_l_cn,
                        self.support_e,
                        av,
                        bv,
                    );
                }
                crate::energy::energy_diff_l_cn(
                    energy_l_cn.complet_energy,
                    self.atom_pos[move_from as usize].cn_metal,
                    self.atom_pos[move_to as usize].cn_metal - 1,
                    self.atom_pos[move_from as usize].nn_support,
                    self.atom_pos[move_to as usize].nn_support,
                    self.support_e,
                )
            }
            EnergyInput::Cn(_) => self.energy_change_table(move_from, move_to),
        }
    }

    /// Re-derives every move into `target` from scratch: afterwards the
    /// collection holds a move `(f, target)` exactly when it is legal, and
    /// no entry with another target changed.
    #[verifier::rlimit(100)]
    #[verifier::spinoff_prover]
    fn refresh_target(&mut self, target: u32)
        requires
            old(self).wf_core(),
            (target as int) < old(self).nsites(),
            forall|p: (u32, u32)|
                old(self).possible_moves@.contains(p) ==> 0 <= (p.0 as int) < old(self).nsites()
                    && is_nn(old(self).pos(), p.0 as int, p.1 as int),
        ensures
            final(self).possible_moves.inv(),
            forall|p: (u32, u32)|
                final(self).possible_moves@.contains(p) == (if p.1 == target {
                    mv_ok(final(self).pos(), p)
                } else {
                    old(self).possible_moves@.contains(p)
                }),
            forall|p: (u32, u32)|
                final(self).possible_moves@.contains(p) ==> 0 <= (p.0 as int) < old(self).nsites()
                    && is_nn(final(self).pos(), p.0 as int, p.1 as int),
            final(self).atom_pos == old(self).atom_pos,
            final(self).onlyocc == old(self).onlyocc,
            final(self).total_energy_1000 == old(self).total_energy_1000,
            final(self).cn_dict == old(self).cn_dict,
            final(self).cn_dict_at_supp == old(self).cn_dict_at_supp,
            final(self).energy == old(self).energy,
            final(self).gridstructure == old(self).gridstructure,
            final(self).support_e == old(self).support_e,
            final(self).niter == old(self).niter,
            final(self).number_all_atoms == old(self).number_all_atoms,
    {
        let ghost pos = self.atom_pos@;
        let ghost n = pos.len() as int;
        let ghost t = target as int;
        let nn_t = self.atom_pos[target as usize].nn;
        let target_ok = self.atom_pos[target as usize].occ == 0
            && self.atom_pos[target as usize].cn_metal > 1;
        proof {
            assert(crate::lattice::nn_ok(pos, t));
        }
        let mut j: usize = 0;
        while j < 12
            invariant
                j <= 12,
                pos == self.atom_pos@,
                n == pos.len(),
                t == target as int,
                0 <= t < n,
                wf_topology(pos),
                nn_t == pos[t].nn,
                target_ok == (pos[t].occ == 0 && pos[t].cn_metal > 1),
                self.possible_moves.inv(),
                forall|p: (u32, u32)|
                    self.possible_moves@.contains(p) == (if p.1 == target
                        && nn_t@.take(j as int).contains(p.0) {
                        mv_ok(pos, p)
                    } else {
                        old(self).possible_moves@.contains(p)
                    }),
                forall|p: (u32, u32)|
                    old(self).possible_moves@.contains(p) ==> 0 <= (p.0 as int) < n && is_nn(
                        pos,
                        p.0 as int,
                        p.1 as int,
                    ),
                self.atom_pos == old(self).atom_pos,
                self.onlyocc == old(self).onlyocc,
                self.total_energy_1000 == old(self).total_energy_1000,
                self.cn_dict == old(self).cn_dict,
                self.cn_dict_at_supp == old(self).cn_dict_at_supp,
                self.energy == old(self).energy,
                self.gridstructure == old(self).gridstructure,
                self.support_e == old(self).support_e,
                self.niter == old(self).niter,
                self.number_all_atoms == old(self).number_all_atoms,
            decreases 12 - j,
        {
            let f = nn_t[j];
            let ghost before = self.possible_moves@;
            proof {
                assert(crate::lattice::nn_ok(pos, t));
                assert(pos[t].nn@[j as int] == f);
                assert((f as int) < n && f as int != t);
                // the shell entry is adjacent to the target both ways
                assert(pos[(pos[t].nn@[j as int]) as int].nn@.contains(t as u32));
                assert(t as u32 == target);
                assert(pos[f as int].nn@.contains(target));
            }
            if target_ok && self.atom_pos[f as usize].occ == 1 {
                self.possible_moves.add_item(f, target, None);
                proof {
                    assert(mv_ok(pos, (f, target)));
                }
            } else {
                self.possible_moves.remove_item(f, target);
                proof {
                    assert(!mv_ok(pos, (f, target)));
                }
            }
            proof {
                assert forall|p: (u32, u32)| self.possible_moves@.contains(p) == (if p.1 == target
                    && nn_t@.take(j as int + 1).contains(p.0) {
                    mv_ok(pos, p)
                } else {
                    old(self).possible_moves@.contains(p)
                }) by {
                    if p == (f, target) {
                        assert(nn_t@.take(j as int + 1)[j as int] == f);
                        assert(nn_t@.take(j as int + 1).contains(f));
                    } else {
                        assert(self.possible_moves@.contains(p) == before.contains(p));
                        if p.1 == target {
                            if nn_t@.take(j as int + 1).contains(p.0) && p.0 != f {
                                let i = choose|i: int|
                                    0 <= i < nn_t@.take(j as int + 1).len() && #[trigger] nn_t@.take(
                                        j as int + 1,
                                    )[i] == p.0;
                                assert(nn_t@.take(j as int)[i] == p.0);
                            }
                            if nn_t@.take(j as int).contains(p.0) {
                                let i = choose|i: int|
                                    0 <= i < nn_t@.take(j as int).len() && #[trigger] nn_t@.take(
                                        j as int,
                                    )[i] == p.0;
                                assert(nn_t@.take(j as int + 1)[i] == p.0);
                            }
                        }
                    }
                }
            }
            j += 1;
        }
        proof {
            assert forall|p: (u32, u32)| self.possible_moves@.contains(p) == (if p.1 == target {
                mv_ok(pos, p)
            } else {
                old(self).possible_moves@.contains(p)
            }) by {
                if p.1 == target && !nn_t@.take(12).contains(p.0) {
                    // a pair into the target whose source is not in the
                    // target's shell is neither stored nor legal
                    assert(!pos[t].nn@.contains(p.0)) by {
                        if pos[t].nn@.contains(p.0) {
                            let i = choose|i: int| 0 <= i < 12 && pos[t].nn@[i] == p.0;
                            assert(nn_t@.take(12)[i] == p.0);
                        }
                    }
                    if old(self).possible_moves@.contains(p) {
                        assert(is_nn(pos, p.0 as int, p.1 as int));
                        let i = choose|i: int|
                            0 <= i < pos[p.0 as int].nn@.len() && pos[p.0 as int].nn@[i] == p.1;
                        assert(pos[(pos[p.0 as int].nn@[i]) as int].nn@.contains(p.0));
                        assert(false);
                    }
                    if mv_ok(pos, p) {
                        assert(is_nn(pos, p.0 as int, p.1 as int));
                        let i = choose|i: int|
                            0 <= i < pos[p.0 as int].nn@.len() && pos[p.0 as int].nn@[i] == p.1;
                        assert(pos[(pos[p.0 as int].nn@[i]) as int].nn@.contains(p.0));
                        assert(false);
                    }
                }
            }
        }
    }

    /// Re-derives every move whose target lies in `center`'s shell; entries
    /// with targets re-derived earlier (the `done` set) keep the new state's
    /// legality, all others their previous membership.
    #[verifier::rlimit(100)]
    #[verifier::spinoff_prover]
    fn refresh_shell(
        &mut self,
        center: u32,
        Ghost(done): Ghost<Set<u32>>,
        Ghost(base): Ghost<Set<(u32, u32)>>,
    )
        requires
            old(self).wf_core(),
            (center as int) < old(self).nsites(),
            forall|p: (u32, u32)|
                old(self).possible_moves@.contains(p) == (if done.contains(p.1) {
                    mv_ok(old(self).pos(), p)
                } else {
                    base.contains(p)
                }),
            forall|p: (u32, u32)|
                old(self).possible_moves@.contains(p) ==> 0 <= (p.0 as int) < old(self).nsites()
                    && is_nn(old(self).pos(), p.0 as int, p.1 as int),
        ensures
            final(self).possible_moves.inv(),
            forall|p: (u32, u32)|
                final(self).possible_moves@.contains(p) == (if done.contains(p.1) || old(
                    self,
                ).pos()[center as int].nn@.contains(p.1) {
                    mv_ok(old(self).pos(), p)
                } else {
                    base.contains(p)
                }),
            forall|p: (u32, u32)|
                final(self).possible_moves@.contains(p) ==> 0 <= (p.0 as int) < old(self).nsites()
                    && is_nn(old(self).pos(), p.0 as int, p.1 as int),
            final(self).atom_pos == old(self).atom_pos,
            final(self).onlyocc == old(self).onlyocc,
            final(self).total_energy_1000 == old(self).total_energy_1000,
            final(self).cn_dict == old(self).cn_dict,
            final(self).cn_dict_at_supp == old(self).cn_dict_at_supp,
            final(self).energy == old(self).energy,
            final(self).gridstructure == old(self).gridstructure,
            final(self).support_e == old(self).support_e,
            final(self).niter == old(self).niter,
            final(self).number_all_atoms == old(self).number_all_atoms,
    {
        let ghost pos = self.atom_pos@;
        let ghost n = pos.len() as int;
        let ghost c = center as int;
        let nn_c = self.atom_pos[center as usize].nn;
        let mut j: usize = 0;
        while j < 12
            invariant
                j <= 12,
                pos == self.atom_pos@,
                n == pos.len(),
                c == center as int,
                0 <= c < n,
                self.wf_core(),
                nn_c == pos[c].nn,
                self.possible_moves.inv(),
                forall|p: (u32, u32)|
                    self.possible_moves@.contains(p) == (if done.contains(p.1)
                        || nn_c@.take(j as int).contains(p.1) {
                        mv_ok(pos, p)
                    } else {
                        base.contains(p)
                    }),
                forall|p: (u32, u32)|
                    self.possible_moves@.contains(p) ==> 0 <= (p.0 as int) < n && is_nn(
                        pos,
                        p.0 as int,
                        p.1 as int,
                    ),
                self.atom_pos == old(self).atom_pos,
                self.onlyocc == old(self).onlyocc,
                self.total_energy_1000 == old(self).total_energy_1000,
                self.cn_dict == old(self).cn_dict,
                self.cn_dict_at_supp == old(self).cn_dict_at_supp,
                self.energy == old(self).energy,
                self.gridstructure == old(self).gridstructure,
                self.support_e == old(self).support_e,
                self.niter == old(self).niter,
                self.number_all_atoms == old(self).number_all_atoms,
            decreases 12 - j,
        {
            let tgt = nn_c[j];
            let ghost before = self.possible_moves@;
            proof {
                assert(crate::lattice::nn_ok(pos, c));
                assert(pos[c].nn@[j as int] == tgt);
                assert((tgt as int) < n);
            }
            self.refresh_target(tgt);
            proof {
                assert forall|p: (u32, u32)| self.possible_moves@.contains(p) == (
                if done.contains(p.1) || nn_c@.take(j as int + 1).contains(p.1) {
                    mv_ok(pos, p)
                } else {
                    base.contains(p)
                }) by {
                    if p.1 == tgt {
                        assert(nn_c@.take(j as int + 1)[j as int] == tgt);
                        assert(nn_c@.take(j as int + 1).contains(p.1));
                    } else {
                        assert(self.possible_moves@.contains(p) == before.contains(p));
                        if nn_c@.take(j as int + 1).contains(p.1) && p.1 != tgt {
                            let i = choose|i: int|
                                0 <= i < nn_c@.take(j as int + 1).len() && #[trigger] nn_c@.take(
                                    j as int + 1,
                                )[i] == p.1;
                            assert(nn_c@.take(j as int)[i] == p.1);
                        }
                        if nn_c@.take(j as int).contains(p.1) {
                            let i = choose|i: int|
                                0 <= i < nn_c@.take(j as int).len() && #[trigger] nn_c@.take(
                                    j as int,
                                )[i] == p.1;
                            assert(nn_c@.take(j as int + 1)[i] == p.1);
                        }
                    }
                }
            }
            j += 1;
        }
        proof {
            assert(nn_c@.take(12) =~= pos[c].nn@);
        }
    }

    /// Refreshes the move collection after an applied move: every site whose
    /// legality as a target can have changed lies in one of the two
    /// endpoints' shells, and each such target is re-derived from scratch,
    /// so the collection again equals the brute-force legal-move set.
    #[verifier::rlimit(100)]
    #[verifier::spinoff_prover]
    pub fn update_possible_moves(&mut self, move_from: u32, move_to: u32)
        requires
            old(self).wf_core(),
            0 <= (move_from as int) < old(self).nsites(),
            0 <= (move_to as int) < old(self).nsites(),
            move_from != move_to,
            old(self).pos()[move_from as int].occ == 0,
            old(self).pos()[move_to as int].occ == 1,
            is_nn(old(self).pos(), move_from as int, move_to as int),
            old(self).possible_moves@ == spec_legal_moves(
                spec_move_applied(old(self).pos(), move_to as int, move_from as int),
            ),
        ensures
            final(self).wf(),
            final(self).possible_moves@ == spec_legal_moves(final(self).pos()),
            final(self).atom_pos == old(self).atom_pos,
            final(self).onlyocc == old(self).onlyocc,
            final(self).total_energy_1000 == old(self).total_energy_1000,
            final(self).cn_dict == old(self).cn_dict,
            final(self).cn_dict_at_supp == old(self).cn_dict_at_supp,
            final(self).energy == old(self).energy,
            final(self).gridstructure == old(self).gridstructure,
            final(self).support_e == old(self).support_e,
            final(self).niter == old(self).niter,
            final(self).number_all_atoms == old(self).number_all_atoms,
    {
        let ghost pos = self.atom_pos@;
        let ghost a = move_from as int;
        let ghost b = move_to as int;
        let ghost base = old(self).possible_moves@;
        let ghost none_done = Set::<u32>::empty();
        proof {
            lemma_prev_moves_adjacent(base, pos, a, b);
        }
        self.refresh_shell(move_from, Ghost(none_done), Ghost(base));
        let ghost from_done = Set::new(|t: u32| pos[a].nn@.contains(t));
        proof {
            assert forall|p: (u32, u32)| self.possible_moves@.contains(p) == (
            if from_done.contains(p.1) {
                mv_ok(pos, p)
            } else {
                base.contains(p)
            }) by {
                assert(from_done.contains(p.1) == pos[a].nn@.contains(p.1));
                assert(!none_done.contains(p.1));
            }
        }
        self.refresh_shell(move_to, Ghost(from_done), Ghost(base));
        proof {
            assert forall|p: (u32, u32)| self.possible_moves@.contains(p) == (
            if pos[a].nn@.contains(p.1) || pos[b].nn@.contains(p.1) {
                mv_ok(pos, p)
            } else {
                spec_legal_moves(spec_move_applied(pos, b, a)).contains(p)
            }) by {
                assert(from_done.contains(p.1) == pos[a].nn@.contains(p.1));
            }
            lemma_moves_refreshed_exact(self.possible_moves@, pos, a, b);
        }
    }

    /// Recomputes the total fixed-point energy by a full scan; the engine
    /// never uses this during a run, it exists so that the incrementally
    /// maintained accumulator can be checked against it.
    pub fn recompute_total_energy_1000(&self) -> (r: i64)
        requires
            self.wf_core(),
        ensures
            r as int == spec_total_energy(self.pos(), self.energy, self.support_e),
    {
        let mut total: i64 = 0;
        let n = self.atom_pos.len();
        let mut s: usize = 0;
        while s < n
            invariant
                self.wf_core(),
                n == self.nsites(),
                s <= n,
                total as int == total_energy_prefix(self.pos(), self.energy, self.support_e, s as int),
                -14 * ENERGY_ENTRY_BOUND * (s as int) <= total as int <= 14 * ENERGY_ENTRY_BOUND * (
                s as int),
            decreases n - s,
        {
            proof {
                crate::lattice::lemma_site_contrib_bound(
                    self.pos(),
                    self.energy,
                    self.support_e,
                    s as int,
                );
                assert(14 * ENERGY_ENTRY_BOUND * (s as int) + 14 * ENERGY_ENTRY_BOUND == 14
                    * ENERGY_ENTRY_BOUND * (s as int + 1)) by (nonlinear_arith);
                assert(-14 * ENERGY_ENTRY_BOUND * (s as int) + -14 * ENERGY_ENTRY_BOUND == -14
                    * ENERGY_ENTRY_BOUND * (s as int + 1)) by (nonlinear_arith);
                assert(14 * ENERGY_ENTRY_BOUND * (s as int) <= 14 * ENERGY_ENTRY_BOUND * 0x100_0000)
                    by (nonlinear_arith)
                    requires
                        0 <= s as int <= 0x100_0000,
                ;
                assert(-14 * ENERGY_ENTRY_BOUND * (s as int) >= -14 * ENERGY_ENTRY_BOUND
                    * 0x100_0000) by (nonlinear_arith)
                    requires
                        0 <= s as int <= 0x100_0000,
                ;
            }
            if self.atom_pos[s].occ == 1 {
                let e = energy_1000_calculation(
                    &self.energy,
                    self.atom_pos[s].cn_metal,
                    self.atom_pos[s].nn_support,
                    self.support_e,
                );
                total += e;
            }
            s += 1;
        }
        total
    }
}

} // verus!
